//! Aggregation of per-repository language sizes into one usage table.
use vstd::prelude::*;

use crate::error::Error;

verus! {

/// Sum of the sizes that `rec` gives to `lang`.
pub open spec fn record_total(rec: Seq<(Seq<char>, u64)>, lang: Seq<char>) -> int
    decreases rec.len(),
{
    if rec.len() == 0 {
        0
    } else {
        record_total(rec.drop_last(), lang) + if rec.last().0 == lang {
            rec.last().1 as int
        } else {
            0
        }
    }
}

/// `rec` names `lang` in at least one pair.
pub open spec fn has_lang(rec: Seq<(Seq<char>, u64)>, lang: Seq<char>) -> bool {
    exists|i: int| 0 <= i < rec.len() && #[trigger] rec[i].0 == lang
}

/// Sum over all repositories of the sizes given to `lang`.
pub open spec fn usage_total(repos: Seq<Seq<(Seq<char>, u64)>>, lang: Seq<char>) -> int
    decreases repos.len(),
{
    if repos.len() == 0 {
        0
    } else {
        usage_total(repos.drop_last(), lang) + record_total(repos.last(), lang)
    }
}

/// Some repository names `lang`.
pub open spec fn mentions(repos: Seq<Seq<(Seq<char>, u64)>>, lang: Seq<char>) -> bool {
    exists|r: int| 0 <= r < repos.len() && has_lang(#[trigger] repos[r], lang)
}

/// The aggregate usage: each language that some repository names, mapped to
/// its total size over all repositories.
pub open spec fn usage_of(repos: Seq<Seq<(Seq<char>, u64)>>) -> Map<Seq<char>, int> {
    Map::new(|l: Seq<char>| mentions(repos, l), |l: Seq<char>| usage_total(repos, l))
}

/// Every total of the aggregate fits in 64 bits.
pub open spec fn totals_fit(repos: Seq<Seq<(Seq<char>, u64)>>) -> bool {
    forall|l: Seq<char>| mentions(repos, l) ==> #[trigger] usage_total(repos, l) <= u64::MAX
}

/// No language name occurs twice.
pub open spec fn keys_unique(e: Seq<(Seq<char>, u64)>) -> bool {
    forall|i: int, j: int| 0 <= i < j < e.len() ==> e[i].0 != e[j].0
}

/// The table read as a map from language name to size.
pub open spec fn table_map(e: Seq<(Seq<char>, u64)>) -> Map<Seq<char>, int> {
    Map::new(|l: Seq<char>| has_lang(e, l), |l: Seq<char>| record_total(e, l))
}

proof fn lemma_record_total_nonneg(rec: Seq<(Seq<char>, u64)>, lang: Seq<char>)
    ensures
        record_total(rec, lang) >= 0,
    decreases rec.len(),
{
    if rec.len() > 0 {
        lemma_record_total_nonneg(rec.drop_last(), lang);
    }
}

proof fn lemma_record_total_append(
    a: Seq<(Seq<char>, u64)>,
    b: Seq<(Seq<char>, u64)>,
    lang: Seq<char>,
)
    ensures
        record_total(a + b, lang) == record_total(a, lang) + record_total(b, lang),
    decreases b.len(),
{
    if b.len() == 0 {
        assert(a + b =~= a);
    } else {
        assert((a + b).drop_last() =~= a + b.drop_last());
        lemma_record_total_append(a, b.drop_last(), lang);
    }
}

/// Position of the last entry of `e` named `lang`, or -1 where there is none.
pub open spec fn find_lang(e: Seq<(Seq<char>, u64)>, lang: Seq<char>) -> int
    decreases e.len(),
{
    if e.len() == 0 {
        -1
    } else if e.last().0 == lang {
        e.len() - 1
    } else {
        find_lang(e.drop_last(), lang)
    }
}

pub proof fn lemma_find_lang(e: Seq<(Seq<char>, u64)>, lang: Seq<char>)
    ensures
        -1 <= find_lang(e, lang) < e.len(),
        find_lang(e, lang) < 0 <==> !has_lang(e, lang),
        find_lang(e, lang) >= 0 ==> e[find_lang(e, lang)].0 == lang,
        keys_unique(e) ==> forall|j: int| 0 <= j < e.len() && e[j].0 == lang ==> find_lang(e, lang) == j,
    decreases e.len(),
{
    if e.len() > 0 {
        let d = e.drop_last();
        lemma_find_lang(d, lang);
        if e.last().0 == lang {
            assert(e[e.len() - 1].0 == lang);
        } else {
            if has_lang(e, lang) {
                let k = choose|k: int| 0 <= k < e.len() && #[trigger] e[k].0 == lang;
                assert(d[k].0 == lang);
            }
            if has_lang(d, lang) {
                let k = choose|k: int| 0 <= k < d.len() && #[trigger] d[k].0 == lang;
                assert(e[k].0 == lang);
            }
            if keys_unique(e) {
                assert(keys_unique(d));
                assert forall|j: int| 0 <= j < e.len() && e[j].0 == lang implies find_lang(e, lang) == j by {
                    assert(d[j] == e[j]);
                }
            }
        }
    }
}

/// In a table without repeated names, the total of a name is the size of its
/// entry, or 0 where it has none.
pub proof fn lemma_record_total_unique(e: Seq<(Seq<char>, u64)>, lang: Seq<char>)
    requires
        keys_unique(e),
    ensures
        forall|j: int| 0 <= j < e.len() && e[j].0 == lang ==> record_total(e, lang) == e[j].1,
        !has_lang(e, lang) ==> record_total(e, lang) == 0,
    decreases e.len(),
{
    if e.len() > 0 {
        let d = e.drop_last();
        assert(keys_unique(d));
        lemma_record_total_unique(d, lang);
        if e.last().0 == lang {
            assert(!has_lang(d, lang));
        } else {
            assert forall|j: int| 0 <= j < e.len() && e[j].0 == lang implies record_total(
                e,
                lang,
            ) == e[j].1 by {
                assert(d[j] == e[j]);
            }
            if !has_lang(e, lang) {
                assert forall|i: int| 0 <= i < d.len() implies d[i].0 != lang by {
                    assert(d[i] == e[i]);
                }
            }
        }
    }
}

/// Usage totals add up over the concatenation of two lists of repositories.
proof fn lemma_usage_additive(
    a: Seq<Seq<(Seq<char>, u64)>>,
    b: Seq<Seq<(Seq<char>, u64)>>,
    lang: Seq<char>,
)
    ensures
        usage_total(a + b, lang) == usage_total(a, lang) + usage_total(b, lang),
    decreases b.len(),
{
    if b.len() == 0 {
        assert(a + b =~= a);
    } else {
        assert((a + b).drop_last() =~= a + b.drop_last());
        lemma_usage_additive(a, b.drop_last(), lang);
    }
}

proof fn lemma_usage_total_nonneg(repos: Seq<Seq<(Seq<char>, u64)>>, lang: Seq<char>)
    ensures
        usage_total(repos, lang) >= 0,
    decreases repos.len(),
{
    if repos.len() > 0 {
        lemma_usage_total_nonneg(repos.drop_last(), lang);
        lemma_record_total_nonneg(repos.last(), lang);
    }
}

proof fn lemma_take_step<A>(s: Seq<A>, i: int)
    requires
        0 <= i < s.len(),
    ensures
        s.take(i + 1).drop_last() == s.take(i),
        s.take(i + 1).last() == s[i],
{
    assert(s.take(i + 1).drop_last() =~= s.take(i));
}

proof fn lemma_has_lang_step(rec: Seq<(Seq<char>, u64)>, i: int, lang: Seq<char>)
    requires
        0 <= i < rec.len(),
    ensures
        record_total(rec.take(i + 1), lang) == record_total(rec.take(i), lang) + if rec[i].0
            == lang {
            rec[i].1 as int
        } else {
            0
        },
        has_lang(rec.take(i + 1), lang) == (has_lang(rec.take(i), lang) || rec[i].0 == lang),
{
    lemma_take_step(rec, i);
    if rec[i].0 == lang {
        assert(rec.take(i + 1)[i].0 == lang);
    }
    if has_lang(rec.take(i), lang) {
        let k = choose|k: int| 0 <= k < rec.take(i).len() && #[trigger] rec.take(i)[k].0 == lang;
        assert(rec.take(i + 1)[k].0 == lang);
    }
    if has_lang(rec.take(i + 1), lang) {
        let k = choose|k: int|
            0 <= k < rec.take(i + 1).len() && #[trigger] rec.take(i + 1)[k].0 == lang;
        if k < i {
            assert(rec.take(i)[k].0 == lang);
        }
    }
}

proof fn lemma_mentions_step(repos: Seq<Seq<(Seq<char>, u64)>>, r: int, lang: Seq<char>)
    requires
        0 <= r < repos.len(),
    ensures
        usage_total(repos.take(r + 1), lang) == usage_total(repos.take(r), lang) + record_total(
            repos[r],
            lang,
        ),
        mentions(repos.take(r + 1), lang) == (mentions(repos.take(r), lang) || has_lang(
            repos[r],
            lang,
        )),
{
    lemma_take_step(repos, r);
    if has_lang(repos[r], lang) {
        assert(has_lang(repos.take(r + 1)[r], lang));
    }
    if mentions(repos.take(r), lang) {
        let k = choose|k: int|
            0 <= k < repos.take(r).len() && has_lang(#[trigger] repos.take(r)[k], lang);
        assert(has_lang(repos.take(r + 1)[k], lang));
    }
    if mentions(repos.take(r + 1), lang) {
        let k = choose|k: int|
            0 <= k < repos.take(r + 1).len() && has_lang(#[trigger] repos.take(r + 1)[k], lang);
        if k < r {
            assert(has_lang(repos.take(r)[k], lang));
        }
    }
}

/// Entering a new language at the end of a table.
proof fn lemma_push_effect(u: Seq<(Seq<char>, u64)>, lang: Seq<char>, size: u64, l: Seq<char>)
    ensures
        record_total(u.push((lang, size)), l) == record_total(u, l) + if l == lang {
            size as int
        } else {
            0
        },
        has_lang(u.push((lang, size)), l) == (has_lang(u, l) || l == lang),
{
    let v = u.push((lang, size));
    assert(v.drop_last() =~= u);
    if l == lang {
        assert(v[u.len() as int].0 == l);
    }
    if has_lang(u, l) {
        let k = choose|k: int| 0 <= k < u.len() && #[trigger] u[k].0 == l;
        assert(v[k].0 == l);
    }
    if has_lang(v, l) && l != lang {
        let k = choose|k: int| 0 <= k < v.len() && #[trigger] v[k].0 == l;
        assert(u[k].0 == l);
    }
}

/// Raising the size of the entry of an existing language.
proof fn lemma_update_effect(
    u: Seq<(Seq<char>, u64)>,
    j: int,
    size: u64,
    l: Seq<char>,
)
    requires
        keys_unique(u),
        0 <= j < u.len(),
        u[j].1 + size <= u64::MAX,
        keys_unique(u.update(j, (u[j].0, (u[j].1 + size) as u64))),
    ensures
        record_total(u.update(j, (u[j].0, (u[j].1 + size) as u64)), l) == record_total(u, l)
            + if l == u[j].0 {
            size as int
        } else {
            0
        },
        has_lang(u.update(j, (u[j].0, (u[j].1 + size) as u64)), l) == has_lang(u, l),
{
    let v = u.update(j, (u[j].0, (u[j].1 + size) as u64));
    lemma_record_total_unique(u, l);
    lemma_record_total_unique(v, l);
    if has_lang(u, l) {
        let k = choose|k: int| 0 <= k < u.len() && #[trigger] u[k].0 == l;
        assert(v[k].0 == l);
    }
    if has_lang(v, l) {
        let k = choose|k: int| 0 <= k < v.len() && #[trigger] v[k].0 == l;
        assert(u[k].0 == l);
    }
    if l == u[j].0 {
        assert(v[j].0 == l);
    }
}

proof fn lemma_usage_total_remove(repos: Seq<Seq<(Seq<char>, u64)>>, j: int, lang: Seq<char>)
    requires
        0 <= j < repos.len(),
    ensures
        usage_total(repos, lang) == usage_total(repos.remove(j), lang) + record_total(
            repos[j],
            lang,
        ),
{
    let one = seq![repos[j]];
    assert(one.drop_last() =~= Seq::<Seq<(Seq<char>, u64)>>::empty());
    assert(usage_total(one.drop_last(), lang) == 0);
    assert(usage_total(one, lang) == record_total(repos[j], lang));
    assert(repos =~= repos.take(j) + one + repos.skip(j + 1));
    assert(repos.remove(j) =~= repos.take(j) + repos.skip(j + 1));
    lemma_usage_additive(repos.take(j) + one, repos.skip(j + 1), lang);
    lemma_usage_additive(repos.take(j), one, lang);
    lemma_usage_additive(repos.take(j), repos.skip(j + 1), lang);
}

proof fn lemma_usage_total_permutation(
    a: Seq<Seq<(Seq<char>, u64)>>,
    b: Seq<Seq<(Seq<char>, u64)>>,
    lang: Seq<char>,
)
    requires
        a.to_multiset() == b.to_multiset(),
    ensures
        usage_total(a, lang) == usage_total(b, lang),
    decreases a.len(),
{
    a.to_multiset_ensures();
    b.to_multiset_ensures();
    if a.len() == 0 {
        assert(b.len() == 0);
    } else {
        let x = a.last();
        let rest = a.drop_last();
        assert(rest.push(x) =~= a);
        assert(a.to_multiset().count(x) > 0);
        assert(b.contains(x));
        let j = choose|j: int| 0 <= j < b.len() && b[j] == x;
        rest.to_multiset_ensures();
        assert(rest.to_multiset().insert(x) == a.to_multiset());
        assert(rest.to_multiset() =~= a.to_multiset().remove(x));
        assert(b.remove(j).to_multiset() =~= b.to_multiset().remove(x));
        lemma_usage_total_permutation(rest, b.remove(j), lang);
        lemma_usage_total_remove(b, j, lang);
    }
}

proof fn lemma_mentions_permutation(
    a: Seq<Seq<(Seq<char>, u64)>>,
    b: Seq<Seq<(Seq<char>, u64)>>,
    lang: Seq<char>,
)
    requires
        a.to_multiset() == b.to_multiset(),
        mentions(a, lang),
    ensures
        mentions(b, lang),
{
    a.to_multiset_ensures();
    b.to_multiset_ensures();
    let r = choose|r: int| 0 <= r < a.len() && has_lang(#[trigger] a[r], lang);
    assert(a.contains(a[r]));
    assert(a.to_multiset().count(a[r]) > 0);
    assert(b.to_multiset().count(a[r]) > 0);
    assert(b.contains(a[r]));
    let k = choose|k: int| 0 <= k < b.len() && b[k] == a[r];
    assert(has_lang(b[k], lang));
}

/// The aggregate does not depend on the order of the repositories: two lists
/// that hold the same repository records, in any order, give the same usage.
pub proof fn lemma_aggregate_order_free(
    a: Seq<Seq<(Seq<char>, u64)>>,
    b: Seq<Seq<(Seq<char>, u64)>>,
)
    requires
        a.to_multiset() == b.to_multiset(),
    ensures
        usage_of(a) == usage_of(b),
        totals_fit(a) == totals_fit(b),
{
    assert forall|l: Seq<char>| #[trigger] usage_total(a, l) == usage_total(b, l) by {
        lemma_usage_total_permutation(a, b, l);
    }
    assert forall|l: Seq<char>| #[trigger] mentions(a, l) == mentions(b, l) by {
        if mentions(a, l) {
            lemma_mentions_permutation(a, b, l);
        }
        if mentions(b, l) {
            lemma_mentions_permutation(b, a, l);
        }
    }
    assert(usage_of(a) =~= usage_of(b));
    if totals_fit(a) {
        assert forall|l: Seq<char>| mentions(b, l) implies #[trigger] usage_total(b, l)
            <= u64::MAX by {
            assert(mentions(a, l));
            assert(usage_total(a, l) <= u64::MAX);
        }
    }
    if totals_fit(b) {
        assert forall|l: Seq<char>| mentions(a, l) implies #[trigger] usage_total(a, l)
            <= u64::MAX by {
            assert(mentions(b, l));
            assert(usage_total(b, l) <= u64::MAX);
        }
    }
}

/// The aggregate of two lists of repositories put together is, language by
/// language, the sum of their aggregates.
pub proof fn lemma_aggregate_additive(
    a: Seq<Seq<(Seq<char>, u64)>>,
    b: Seq<Seq<(Seq<char>, u64)>>,
    lang: Seq<char>,
)
    ensures
        usage_total(a + b, lang) == usage_total(a, lang) + usage_total(b, lang),
        mentions(a + b, lang) == (mentions(a, lang) || mentions(b, lang)),
{
    lemma_usage_additive(a, b, lang);
    if mentions(a, lang) {
        let r = choose|r: int| 0 <= r < a.len() && has_lang(#[trigger] a[r], lang);
        assert(has_lang((a + b)[r], lang));
    }
    if mentions(b, lang) {
        let r = choose|r: int| 0 <= r < b.len() && has_lang(#[trigger] b[r], lang);
        assert(has_lang((a + b)[a.len() + r], lang));
    }
    if mentions(a + b, lang) {
        let r = choose|r: int| 0 <= r < (a + b).len() && has_lang(#[trigger] (a + b)[r], lang);
        if r < a.len() {
            assert(has_lang(a[r], lang));
        } else {
            assert(has_lang(b[r - a.len()], lang));
        }
    }
}

/// A table of language sizes, one entry per language, in order of first
/// appearance.
pub struct LangUsage {
    entries: Vec<(String, u64)>,
}

impl View for LangUsage {
    type V = Seq<(Seq<char>, u64)>;

    closed spec fn view(&self) -> Seq<(Seq<char>, u64)> {
        self.entries.deep_view()
    }
}

impl LangUsage {
    /// No language occurs twice.
    pub open spec fn wf(&self) -> bool {
        keys_unique(self@)
    }

    /// An empty table.
    pub fn new() -> (r: LangUsage)
        ensures
            r.wf(),
            r@ == Seq::<(Seq<char>, u64)>::empty(),
    {
        let r = LangUsage { entries: Vec::new() };
        assert(r@ =~= Seq::<(Seq<char>, u64)>::empty());
        r
    }

    /// Number of languages in the table.
    pub fn len(&self) -> (r: usize)
        ensures
            r == self@.len(),
    {
        self.entries.len()
    }

    /// The language and size at position `i`.
    pub fn entry(&self, i: usize) -> (r: (String, u64))
        requires
            i < self@.len(),
        ensures
            r.0@ == self@[i as int].0,
            r.1 == self@[i as int].1,
    {
        let name = self.entries[i].0.clone();
        (name, self.entries[i].1)
    }

    /// Adds `size` to the total of `lang`, entering `lang` at the end with
    /// `size` if it is new. Fails, leaving the table as it was, where the new
    /// total would not fit in 64 bits; the error names the language.
    pub fn add(&mut self, lang: &String, size: u64) -> (r: Result<(), Error>)
        requires
            old(self).wf(),
        ensures
            final(self).wf(),
            ({
                let e = old(self)@;
                let j = find_lang(e, lang@);
                if j < 0 {
                    r is Ok && final(self)@ == e.push((lang@, size))
                } else if e[j].1 + size <= u64::MAX {
                    r is Ok && final(self)@ == e.update(j, (lang@, (e[j].1 + size) as u64))
                } else {
                    (r matches Err(Error::SizeOverflow(l)) && l@ == lang@) && final(self)@ == e
                }
            }),
    {
        let n = self.entries.len();
        let mut j: usize = 0;
        while j < n
            invariant
                n == self.entries.len(),
                self@ == old(self)@,
                self.wf(),
                j <= n,
                forall|k: int| 0 <= k < j ==> self@[k].0 != lang@,
            decreases n - j,
        {
            proof {
                assert(self@[j as int] == (self.entries@[j as int].0@, self.entries@[j as int].1));
            }
            if self.entries[j].0 == *lang {
                let v = self.entries[j].1;
                proof {
                    lemma_find_lang(old(self)@, lang@);
                    assert(old(self)@[j as int].0 == lang@);
                }
                if v > u64::MAX - size {
                    return Err(Error::SizeOverflow(lang.clone()));
                }
                let ghost pre = self@;
                self.entries.set(j, (lang.clone(), v + size));
                proof {
                    assert(self@ =~= pre.update(j as int, (lang@, (v + size) as u64)));
                    assert forall|a: int, b: int| 0 <= a < b < self@.len() implies self@[a].0
                        != self@[b].0 by {
                        assert(pre[a].0 != pre[b].0);
                    }
                }
                return Ok(());
            }
            j += 1;
        }
        let ghost pre = self@;
        self.entries.push((lang.clone(), size));
        proof {
            assert(self@ =~= pre.push((lang@, size)));
            assert(!has_lang(pre, lang@));
            lemma_find_lang(pre, lang@);
        }
        Ok(())
    }
}

/// Sums the sizes of each language over all repositories. Each element of
/// `repos` is one repository's list of (language, size) pairs. Fails only
/// where some total does not fit in 64 bits, naming such a language.
pub fn aggregate(repos: &Vec<Vec<(String, u64)>>) -> (r: Result<LangUsage, Error>)
    ensures
        r is Ok <==> totals_fit(repos.deep_view()),
        r matches Ok(u) ==> u.wf() && table_map(u@) == usage_of(repos.deep_view()),
        r matches Err(e) ==> (e matches Error::SizeOverflow(l) && mentions(repos.deep_view(), l@)
            && usage_total(repos.deep_view(), l@) > u64::MAX),
{
    let ghost rs = repos.deep_view();
    let mut u = LangUsage::new();
    let n = repos.len();
    let mut r: usize = 0;
    assert(rs.take(0) =~= Seq::<Seq<(Seq<char>, u64)>>::empty());
    while r < n
        invariant
            n == repos.len(),
            rs == repos.deep_view(),
            r <= n,
            u.wf(),
            forall|l: Seq<char>| #[trigger]
                has_lang(u@, l) == mentions(rs.take(r as int), l),
            forall|l: Seq<char>| #[trigger]
                record_total(u@, l) == usage_total(rs.take(r as int), l),
        decreases n - r,
    {
        let rec = &repos[r];
        let m = rec.len();
        let ghost cur = rs[r as int];
        assert(cur == rec.deep_view());
        let mut i: usize = 0;
        assert(cur.take(0) =~= Seq::<(Seq<char>, u64)>::empty());
        while i < m
            invariant
                n == repos.len(),
                rs == repos.deep_view(),
                r < n,
                rec == repos@[r as int],
                cur == rs[r as int],
                cur == rec.deep_view(),
                m == rec.len(),
                i <= m,
                u.wf(),
                forall|l: Seq<char>| #[trigger]
                    has_lang(u@, l) == (mentions(rs.take(r as int), l) || has_lang(
                        cur.take(i as int),
                        l,
                    )),
                forall|l: Seq<char>| #[trigger]
                    record_total(u@, l) == usage_total(rs.take(r as int), l) + record_total(
                        cur.take(i as int),
                        l,
                    ),
            decreases m - i,
        {
            let name = &rec[i].0;
            let size = rec[i].1;
            assert(cur[i as int] == (name@, size));
            let ghost pre = u@;
            let res = u.add(name, size);
            proof {
                lemma_find_lang(pre, name@);
                if !has_lang(pre, name@) {
                    assert forall|l: Seq<char>|
                        #![trigger has_lang(u@, l)]
                        #![trigger record_total(u@, l)]
                        has_lang(u@, l) == (mentions(rs.take(r as int), l) || has_lang(
                            cur.take(i + 1),
                            l,
                        )) && record_total(u@, l) == usage_total(rs.take(r as int), l)
                            + record_total(cur.take(i + 1), l) by {
                        lemma_push_effect(pre, name@, size, l);
                        lemma_has_lang_step(cur, i as int, l);
                    }
                } else {
                    let j = find_lang(pre, name@);
                    if pre[j].1 + size <= u64::MAX {
                        assert forall|l: Seq<char>|
                            #![trigger has_lang(u@, l)]
                            #![trigger record_total(u@, l)]
                            has_lang(u@, l) == (mentions(rs.take(r as int), l)
                                || has_lang(cur.take(i + 1), l)) && record_total(u@, l)
                                == usage_total(rs.take(r as int), l) + record_total(
                                cur.take(i + 1),
                                l,
                            ) by {
                            lemma_update_effect(pre, j, size, l);
                            lemma_has_lang_step(cur, i as int, l);
                        }
                    } else {
                        let l = name@;
                        lemma_record_total_unique(pre, l);
                        lemma_has_lang_step(cur, i as int, l);
                        lemma_usage_additive(rs.take(r + 1), rs.skip(r + 1), l);
                        assert(rs.take(r + 1) + rs.skip(r + 1) =~= rs);
                        lemma_mentions_step(rs, r as int, l);
                        lemma_record_total_append(cur.take(i + 1), cur.skip(i + 1), l);
                        assert(cur.take(i + 1) + cur.skip(i + 1) =~= cur);
                        lemma_record_total_nonneg(cur.skip(i + 1), l);
                        lemma_usage_total_nonneg(rs.skip(r + 1), l);
                        assert(has_lang(cur, l)) by {
                            assert(cur[i as int].0 == l);
                        }
                        assert(mentions(rs, l)) by {
                            assert(has_lang(rs[r as int], l));
                        }
                        assert(usage_total(rs, l) > u64::MAX);
                        assert(!totals_fit(rs));
                    }
                }
            }
            if let Err(e) = res {
                return Err(e);
            }
            i += 1;
        }
        proof {
            assert(cur.take(m as int) =~= cur);
            assert forall|l: Seq<char>|
                #![trigger has_lang(u@, l)]
                #![trigger record_total(u@, l)]
                has_lang(u@, l) == mentions(rs.take(r + 1), l) && record_total(u@, l)
                    == usage_total(rs.take(r + 1), l) by {
                lemma_mentions_step(rs, r as int, l);
            }
        }
        r += 1;
    }
    proof {
        assert(rs.take(n as int) =~= rs);
        assert forall|l: Seq<char>| mentions(rs, l) implies #[trigger] usage_total(rs, l)
            <= u64::MAX by {
            assert(has_lang(u@, l));
            let j = choose|j: int| 0 <= j < u@.len() && #[trigger] u@[j].0 == l;
            lemma_record_total_unique(u@, l);
        }
        assert(table_map(u@) =~= usage_of(rs));
    }
    Ok(u)
}

} // verus!
