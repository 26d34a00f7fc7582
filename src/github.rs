//! Ranking of language usage, and the values read from the hosting
//! service's responses.
use vstd::prelude::*;

use crate::error::{Error, Field};
use crate::usage::LangUsage;

verus! {

/// The entries of `e` whose language is not in `ignores`, in their order.
pub open spec fn eligible(e: Seq<(Seq<char>, u64)>, ignores: Seq<Seq<char>>) -> Seq<
    (Seq<char>, u64),
>
    decreases e.len(),
{
    if e.len() == 0 {
        Seq::empty()
    } else {
        let rest = eligible(e.drop_last(), ignores);
        if ignores.contains(e.last().0) {
            rest
        } else {
            rest.push(e.last())
        }
    }
}

/// The number of leading entries of `s` whose size is at least that of `x`.
pub open spec fn insert_pos(s: Seq<(Seq<char>, u64)>, x: (Seq<char>, u64)) -> nat
    decreases s.len(),
{
    if s.len() == 0 {
        0
    } else if s[0].1 >= x.1 {
        1 + insert_pos(s.drop_first(), x)
    } else {
        0
    }
}

/// `x` placed after every leading entry that is at least as large.
pub open spec fn insert_desc(s: Seq<(Seq<char>, u64)>, x: (Seq<char>, u64)) -> Seq<
    (Seq<char>, u64),
> {
    s.insert(insert_pos(s, x) as int, x)
}

/// `s` sorted by size, largest first; entries of equal size keep their order.
pub open spec fn sort_desc(s: Seq<(Seq<char>, u64)>) -> Seq<(Seq<char>, u64)>
    decreases s.len(),
{
    if s.len() == 0 {
        Seq::empty()
    } else {
        insert_desc(sort_desc(s.drop_last()), s.last())
    }
}

/// Sizes never increase along `s`.
pub open spec fn is_desc(s: Seq<(Seq<char>, u64)>) -> bool {
    forall|i: int, j: int| 0 <= i < j < s.len() ==> s[i].1 >= s[j].1
}

/// The ranking: eligible entries, largest first, at most `n` of them.
pub open spec fn top_spec(e: Seq<(Seq<char>, u64)>, ignores: Seq<Seq<char>>, n: nat) -> Seq<
    (Seq<char>, u64),
> {
    let s = sort_desc(eligible(e, ignores));
    if n < s.len() {
        s.take(n as int)
    } else {
        s
    }
}

proof fn lemma_insert_pos_props(s: Seq<(Seq<char>, u64)>, x: (Seq<char>, u64))
    ensures
        insert_pos(s, x) <= s.len(),
        forall|k: int| 0 <= k < insert_pos(s, x) ==> s[k].1 >= x.1,
        insert_pos(s, x) < s.len() ==> s[insert_pos(s, x) as int].1 < x.1,
    decreases s.len(),
{
    if s.len() > 0 && s[0].1 >= x.1 {
        lemma_insert_pos_props(s.drop_first(), x);
        assert forall|k: int| 0 <= k < insert_pos(s, x) implies s[k].1 >= x.1 by {
            if k > 0 {
                assert(s[k] == s.drop_first()[k - 1]);
            }
        }
    }
}

proof fn lemma_insert_pos_at(s: Seq<(Seq<char>, u64)>, x: (Seq<char>, u64), j: int)
    requires
        0 <= j <= s.len(),
        forall|k: int| 0 <= k < j ==> s[k].1 >= x.1,
        j == s.len() || s[j].1 < x.1,
    ensures
        insert_pos(s, x) == j,
    decreases j,
{
    if j > 0 {
        let t = s.drop_first();
        assert forall|k: int| 0 <= k < j - 1 implies t[k].1 >= x.1 by {
            assert(t[k] == s[k + 1]);
        }
        if j < s.len() {
            assert(t[j - 1] == s[j]);
        }
        lemma_insert_pos_at(t, x, j - 1);
    }
}

/// Sorting keeps the length and the entries, and orders them by size,
/// largest first.
pub proof fn lemma_sort_desc(s: Seq<(Seq<char>, u64)>)
    ensures
        sort_desc(s).len() == s.len(),
        sort_desc(s).to_multiset() == s.to_multiset(),
        is_desc(sort_desc(s)),
    decreases s.len(),
{
    broadcast use vstd::seq_lib::group_to_multiset_ensures;

    if s.len() > 0 {
        let t = sort_desc(s.drop_last());
        let x = s.last();
        lemma_sort_desc(s.drop_last());
        lemma_insert_pos_props(t, x);
        let p = insert_pos(t, x) as int;
        let u = t.insert(p, x);
        assert(s.drop_last().push(x) =~= s);
        vstd::seq_lib::to_multiset_insert(t, p, x);
        assert forall|i: int, j: int| 0 <= i < j < u.len() implies u[i].1 >= u[j].1 by {
            if j < p {
                assert(u[i] == t[i] && u[j] == t[j]);
            } else if j == p {
                assert(u[i] == t[i]);
            } else if i < p {
                assert(u[i] == t[i] && u[j] == t[j - 1]);
            } else if i == p {
                assert(u[j] == t[j - 1]);
                assert(t[p].1 < x.1);
                assert(t[p].1 >= t[j - 1].1 || p == j - 1);
            } else {
                assert(u[i] == t[i - 1] && u[j] == t[j - 1]);
            }
        }
    }
}

/// The eligible entries are exactly those of `e` whose language is not
/// ignored.
pub proof fn lemma_eligible(e: Seq<(Seq<char>, u64)>, ignores: Seq<Seq<char>>)
    ensures
        forall|x: (Seq<char>, u64)| #[trigger]
            eligible(e, ignores).contains(x) <==> (e.contains(x) && !ignores.contains(x.0)),
        eligible(e, ignores).len() <= e.len(),
    decreases e.len(),
{
    if e.len() > 0 {
        let d = e.drop_last();
        lemma_eligible(d, ignores);
        let r = eligible(d, ignores);
        assert forall|x: (Seq<char>, u64)| #[trigger]
            eligible(e, ignores).contains(x) <==> (e.contains(x) && !ignores.contains(x.0)) by {
            if e.contains(x) {
                let k = choose|k: int| 0 <= k < e.len() && e[k] == x;
                if k < d.len() {
                    assert(d[k] == x);
                    assert(d.contains(x));
                }
            }
            if d.contains(x) {
                let k = choose|k: int| 0 <= k < d.len() && d[k] == x;
                assert(e[k] == x);
            }
            if !ignores.contains(e.last().0) {
                assert(r.push(e.last())[r.len() as int] == e.last());
                if r.push(e.last()).contains(x) {
                    let k = choose|k: int| 0 <= k < r.len() + 1 && r.push(e.last())[k] == x;
                    if k < r.len() {
                        assert(r[k] == x);
                    }
                }
                if r.contains(x) {
                    let k = choose|k: int| 0 <= k < r.len() && r[k] == x;
                    assert(r.push(e.last())[k] == x);
                }
            }
        }
    }
}

/// Whether `name` is one of `ignores`.
fn is_ignored(name: &String, ignores: &Vec<String>) -> (r: bool)
    ensures
        r == ignores.deep_view().contains(name@),
{
    let ghost iv = ignores.deep_view();
    let mut k: usize = 0;
    while k < ignores.len()
        invariant
            iv == ignores.deep_view(),
            k <= ignores.len(),
            forall|m: int| 0 <= m < k ==> iv[m] != name@,
        decreases ignores.len() - k,
    {
        assert(iv[k as int] == ignores@[k as int]@);
        if ignores[k] == *name {
            assert(iv.contains(name@)) by {
                assert(iv[k as int] == name@);
            }
            return true;
        }
        k += 1;
    }
    proof {
        if iv.contains(name@) {
            let m = choose|m: int| 0 <= m < iv.len() && iv[m] == name@;
        }
    }
    false
}

/// The `top_n` largest languages of `usage`, largest first, leaving out the
/// languages in `ignores`. Languages of equal size keep their order in
/// `usage`.
pub fn topLanguages(usage: LangUsage, top_n: usize, ignores: &Vec<String>) -> (r: Vec<
    (String, u64),
>)
    ensures
        r.deep_view() == top_spec(usage@, ignores.deep_view(), top_n as nat),
        r.len() == if top_n < eligible(usage@, ignores.deep_view()).len() {
            top_n as int
        } else {
            eligible(usage@, ignores.deep_view()).len() as int
        },
        is_desc(r.deep_view()),
        forall|i: int|
            0 <= i < r.len() ==> usage@.contains(#[trigger] r.deep_view()[i])
                && !ignores.deep_view().contains(r.deep_view()[i].0),
        forall|i: int, x: (Seq<char>, u64)|
            0 <= i < r.len() && #[trigger] eligible(usage@, ignores.deep_view()).contains(x)
                && !r.deep_view().contains(x) ==> x.1 <= #[trigger] r.deep_view()[i].1,
{
    let ghost e = usage@;
    let ghost iv = ignores.deep_view();
    let n = usage.len();
    let mut out: Vec<(String, u64)> = Vec::new();
    let mut i: usize = 0;
    assert(e.take(0) =~= Seq::<(Seq<char>, u64)>::empty());
    assert(out.deep_view() =~= Seq::<(Seq<char>, u64)>::empty());
    while i < n
        invariant
            n == e.len(),
            e == usage@,
            iv == ignores.deep_view(),
            i <= n,
            out.deep_view() == sort_desc(eligible(e.take(i as int), iv)),
        decreases n - i,
    {
        let (name, size) = usage.entry(i);
        let ghost x = (name@, size);
        assert(e[i as int] == x);
        assert(e.take(i + 1).drop_last() =~= e.take(i as int));
        if !is_ignored(&name, ignores) {
            let ghost s = out.deep_view();
            assert(eligible(e.take(i as int), iv).push(x).drop_last() =~= eligible(
                e.take(i as int),
                iv,
            ));
            let mut j: usize = 0;
            while j < out.len() && out[j].1 >= size
                invariant
                    s == out.deep_view(),
                    j <= out.len(),
                    forall|k: int| 0 <= k < j ==> s[k].1 >= size,
                decreases out.len() - j,
            {
                assert(s[j as int].1 == out@[j as int].1);
                j += 1;
            }
            proof {
                if j < out.len() {
                    assert(s[j as int].1 == out@[j as int].1);
                }
                lemma_insert_pos_at(s, x, j as int);
            }
            out.insert(j, (name, size));
            assert(out.deep_view() =~= s.insert(j as int, x));
        }
        i += 1;
    }
    assert(e.take(n as int) =~= e);
    let ghost sorted = out.deep_view();
    if top_n < out.len() {
        out.truncate(top_n);
        assert(out.deep_view() =~= sorted.take(top_n as int));
    }
    proof {
        let el = eligible(e, iv);
        lemma_sort_desc(el);
        lemma_eligible(e, iv);
        broadcast use vstd::seq_lib::group_to_multiset_ensures;

        assert forall|k: int| 0 <= k < out.len() implies e.contains(
            #[trigger] out.deep_view()[k],
        ) && !iv.contains(out.deep_view()[k].0) by {
            let y = out.deep_view()[k];
            assert(sorted[k] == y);
            assert(sorted.contains(y));
            assert(sorted.to_multiset().count(y) > 0);
            assert(el.contains(y));
        }
        let rv = out.deep_view();
        assert forall|i: int, x: (Seq<char>, u64)|
            0 <= i < rv.len() && #[trigger] el.contains(x) && !rv.contains(x) implies x.1
            <= #[trigger] rv[i].1 by {
            assert(el.to_multiset().count(x) > 0);
            assert(sorted.contains(x));
            let k = choose|k: int| 0 <= k < sorted.len() && sorted[k] == x;
            if k < rv.len() {
                assert(rv[k] == x);
            }
            assert(rv[i] == sorted[i]);
        }
    }
    out
}

#[verifier::external_type_specification]
#[verifier::external_body]
pub struct ExJsonValue(serde_json::Value);

/// The value under a key of a JSON object, as `serde_json::Value::get` gives it.
pub uninterp spec fn json_get_of(v: serde_json::Value, key: Seq<char>) -> Option<serde_json::Value>;

/// The number of a JSON value, as `serde_json::Value::as_u64` gives it.
pub uninterp spec fn json_u64_of(v: serde_json::Value) -> Option<u64>;

/// The text of a JSON value, as `serde_json::Value::as_str` gives it.
pub uninterp spec fn json_str_of(v: serde_json::Value) -> Option<Seq<char>>;

/// The elements of a JSON value, as `serde_json::Value::as_array` gives them.
pub uninterp spec fn json_array_of(v: serde_json::Value) -> Option<Seq<serde_json::Value>>;

/// Relies on `serde_json::Value::get` with a string key: the value under
/// `key` where `v` is an object that holds it; the result depends on `v` and
/// `key` alone.
#[verifier::external_body]
fn json_field<'a>(v: &'a serde_json::Value, key: &str) -> (r: Option<&'a serde_json::Value>)
    ensures
        r is None <==> json_get_of(*v, key@) is None,
        r matches Some(x) ==> json_get_of(*v, key@) == Some(*x),
{
    v.get(key)
}

/// Relies on `serde_json::Value::as_u64`: the number held by `v` where it is
/// a number that fits in 64 bits without sign.
#[verifier::external_body]
fn json_u64(v: &serde_json::Value) -> (r: Option<u64>)
    ensures
        r == json_u64_of(*v),
{
    v.as_u64()
}

/// Relies on `serde_json::Value::as_str`: the text held by `v` where it is a
/// string.
#[verifier::external_body]
fn json_str(v: &serde_json::Value) -> (r: Option<String>)
    ensures
        r is None <==> json_str_of(*v) is None,
        r matches Some(s) ==> json_str_of(*v) == Some(s@),
{
    v.as_str().map(|s| s.to_owned())
}

/// Relies on `serde_json::Value::as_array`: the elements of `v` where it is
/// an array.
#[verifier::external_body]
fn json_array(v: &serde_json::Value) -> (r: Option<&Vec<serde_json::Value>>)
    ensures
        r is None <==> json_array_of(*v) is None,
        r matches Some(a) ==> json_array_of(*v) == Some(a@),
{
    v.as_array()
}

/// The value reached from `v` through the object keys `keys`, in order.
pub open spec fn path_of(v: serde_json::Value, keys: Seq<Seq<char>>) -> Option<serde_json::Value>
    decreases keys.len(),
{
    if keys.len() == 0 {
        Some(v)
    } else {
        match json_get_of(v, keys[0]) {
            Some(x) => path_of(x, keys.drop_first()),
            None => None,
        }
    }
}

/// The number at the end of `keys`.
pub open spec fn u64_at(v: serde_json::Value, keys: Seq<Seq<char>>) -> Option<u64> {
    match path_of(v, keys) {
        Some(x) => json_u64_of(x),
        None => None,
    }
}

/// The text at the end of `keys`.
pub open spec fn str_at(v: serde_json::Value, keys: Seq<Seq<char>>) -> Option<Seq<char>> {
    match path_of(v, keys) {
        Some(x) => json_str_of(x),
        None => None,
    }
}

/// The array at the end of `keys`.
pub open spec fn array_at(v: serde_json::Value, keys: Seq<Seq<char>>) -> Option<
    Seq<serde_json::Value>,
> {
    match path_of(v, keys) {
        Some(x) => json_array_of(x),
        None => None,
    }
}

/// The value reached from `v` through the object keys `keys`, in order.
fn lookup<'a>(v: &'a serde_json::Value, keys: &[&str]) -> (r: Option<&'a serde_json::Value>)
    ensures
        r is None <==> path_of(*v, keys@.map_values(|k: &str| k@)) is None,
        r matches Some(x) ==> path_of(*v, keys@.map_values(|k: &str| k@)) == Some(*x),
{
    let ghost ks = keys@.map_values(|k: &str| k@);
    let mut cur = v;
    let mut k: usize = 0;
    assert(ks.skip(0) =~= ks);
    while k < keys.len()
        invariant
            k <= keys@.len(),
            ks == keys@.map_values(|k: &str| k@),
            path_of(*v, ks) == path_of(*cur, ks.skip(k as int)),
        decreases keys@.len() - k,
    {
        assert(ks.skip(k as int)[0] == keys@[k as int]@);
        assert(ks.skip(k as int).drop_first() =~= ks.skip(k + 1));
        match json_field(cur, keys[k]) {
            Some(next) => {
                cur = next;
            },
            None => {
                return None;
            },
        }
        k += 1;
    }
    assert(ks.skip(k as int) =~= Seq::<Seq<char>>::empty());
    Some(cur)
}

pub open spec fn repo_count_path() -> Seq<Seq<char>> {
    seq!["data"@, "viewer"@, "repositories"@, "totalCount"@]
}

pub open spec fn repos_path() -> Seq<Seq<char>> {
    seq!["data"@, "viewer"@, "repositories"@, "edges"@]
}

pub open spec fn langs_path() -> Seq<Seq<char>> {
    seq!["node"@, "languages"@, "edges"@]
}

pub open spec fn size_path() -> Seq<Seq<char>> {
    seq!["size"@]
}

pub open spec fn name_path() -> Seq<Seq<char>> {
    seq!["node"@, "name"@]
}

pub open spec fn login_path() -> Seq<Seq<char>> {
    seq!["data"@, "viewer"@, "login"@]
}

pub open spec fn commit_path() -> Seq<Seq<char>> {
    seq!["data"@, "repository"@, "object"@, "oid"@]
}

pub open spec fn tree_path() -> Seq<Seq<char>> {
    seq!["data"@, "repository"@, "object"@, "tree"@, "oid"@]
}

pub open spec fn sha_path() -> Seq<Seq<char>> {
    seq!["sha"@]
}

/// The number of repositories in a repository-count response.
pub fn repoCount(data: &serde_json::Value) -> (r: Result<u64, Error>)
    ensures
        r == match u64_at(*data, repo_count_path()) {
            Some(n) => Ok::<u64, Error>(n),
            None => Err(Error::DataFormat(Field::RepoCount)),
        },
{
    let keys: &[&str] = &["data", "viewer", "repositories", "totalCount"];
    assert(keys@.map_values(|k: &str| k@) == repo_count_path());
    match lookup(data, keys) {
        Some(v) => match json_u64(v) {
            Some(n) => Ok(n),
            None => Err(Error::DataFormat(Field::RepoCount)),
        },
        None => Err(Error::DataFormat(Field::RepoCount)),
    }
}

/// The (language, size) pair of one language edge: its size is read first.
pub open spec fn edge_pair(edge: serde_json::Value) -> Result<(Seq<char>, u64), Error> {
    match u64_at(edge, size_path()) {
        None => Err(Error::DataFormat(Field::LanguageSize)),
        Some(size) => match str_at(edge, name_path()) {
            None => Err(Error::DataFormat(Field::LanguageName)),
            Some(name) => Ok((name, size)),
        },
    }
}

/// The pairs of a list of language edges, or the error of the first edge
/// that fails.
pub open spec fn edge_pairs(edges: Seq<serde_json::Value>) -> Result<Seq<(Seq<char>, u64)>, Error>
    decreases edges.len(),
{
    if edges.len() == 0 {
        Ok(Seq::empty())
    } else {
        match edge_pairs(edges.drop_last()) {
            Err(e) => Err(e),
            Ok(ps) => match edge_pair(edges.last()) {
                Err(e) => Err(e),
                Ok(p) => Ok(ps.push(p)),
            },
        }
    }
}

/// The pairs of one repository edge.
pub open spec fn repo_pairs(repo: serde_json::Value) -> Result<Seq<(Seq<char>, u64)>, Error> {
    match array_at(repo, langs_path()) {
        None => Err(Error::DataFormat(Field::Languages)),
        Some(edges) => edge_pairs(edges),
    }
}

/// The pairs of each repository edge, or the error of the first one that
/// fails.
pub open spec fn repos_pairs(repos: Seq<serde_json::Value>) -> Result<
    Seq<Seq<(Seq<char>, u64)>>,
    Error,
>
    decreases repos.len(),
{
    if repos.len() == 0 {
        Ok(Seq::empty())
    } else {
        match repos_pairs(repos.drop_last()) {
            Err(e) => Err(e),
            Ok(rs) => match repo_pairs(repos.last()) {
                Err(e) => Err(e),
                Ok(r) => Ok(rs.push(r)),
            },
        }
    }
}

/// The per-repository pairs of a language response.
pub open spec fn records_of(data: serde_json::Value) -> Result<Seq<Seq<(Seq<char>, u64)>>, Error> {
    match array_at(data, repos_path()) {
        None => Err(Error::DataFormat(Field::Repositories)),
        Some(repos) => repos_pairs(repos),
    }
}

proof fn lemma_edge_pairs_err(edges: Seq<serde_json::Value>, i: int)
    requires
        0 <= i <= edges.len(),
        edge_pairs(edges.take(i)) is Err,
    ensures
        edge_pairs(edges) == edge_pairs(edges.take(i)),
    decreases edges.len() - i,
{
    if i < edges.len() {
        assert(edges.take(i + 1).drop_last() =~= edges.take(i));
        lemma_edge_pairs_err(edges, i + 1);
    } else {
        assert(edges.take(i) =~= edges);
    }
}

proof fn lemma_repos_pairs_err(repos: Seq<serde_json::Value>, i: int)
    requires
        0 <= i <= repos.len(),
        repos_pairs(repos.take(i)) is Err,
    ensures
        repos_pairs(repos) == repos_pairs(repos.take(i)),
    decreases repos.len() - i,
{
    if i < repos.len() {
        assert(repos.take(i + 1).drop_last() =~= repos.take(i));
        lemma_repos_pairs_err(repos, i + 1);
    } else {
        assert(repos.take(i) =~= repos);
    }
}

/// The (language, size) pairs of one repository edge of a language response.
fn repoLanguages(repo: &serde_json::Value) -> (r: Result<Vec<(String, u64)>, Error>)
    ensures
        r matches Ok(v) ==> repo_pairs(*repo) == Ok::<Seq<(Seq<char>, u64)>, Error>(
            v.deep_view(),
        ),
        r matches Err(e) ==> repo_pairs(*repo) == Err::<Seq<(Seq<char>, u64)>, Error>(e),
{
    let keys: &[&str] = &["node", "languages", "edges"];
    assert(keys@.map_values(|k: &str| k@) == langs_path());
    let edges = match lookup(repo, keys) {
        Some(v) => match json_array(v) {
            Some(a) => a,
            None => {
                return Err(Error::DataFormat(Field::Languages));
            },
        },
        None => {
            return Err(Error::DataFormat(Field::Languages));
        },
    };
    let ghost es = edges@;
    let size_keys: &[&str] = &["size"];
    assert(size_keys@.map_values(|k: &str| k@) == size_path());
    let name_keys: &[&str] = &["node", "name"];
    assert(name_keys@.map_values(|k: &str| k@) == name_path());
    let mut out: Vec<(String, u64)> = Vec::new();
    let mut i: usize = 0;
    assert(es.take(0) =~= Seq::<serde_json::Value>::empty());
    assert(out.deep_view() =~= Seq::<(Seq<char>, u64)>::empty());
    while i < edges.len()
        invariant
            es == edges@,
            array_at(*repo, langs_path()) == Some(es),
            size_keys@.map_values(|k: &str| k@) == size_path(),
            name_keys@.map_values(|k: &str| k@) == name_path(),
            i <= es.len(),
            edge_pairs(es.take(i as int)) == Ok::<Seq<(Seq<char>, u64)>, Error>(out.deep_view()),
        decreases es.len() - i,
    {
        let edge = &edges[i];
        assert(es.take(i + 1).drop_last() =~= es.take(i as int));
        assert(es.take(i + 1).last() == *edge);
        let size = match lookup(edge, size_keys) {
            Some(v) => match json_u64(v) {
                Some(n) => n,
                None => {
                    proof {
                        lemma_edge_pairs_err(es, i + 1);
                    }
                    return Err(Error::DataFormat(Field::LanguageSize));
                },
            },
            None => {
                proof {
                    lemma_edge_pairs_err(es, i + 1);
                }
                return Err(Error::DataFormat(Field::LanguageSize));
            },
        };
        let name = match lookup(edge, name_keys) {
            Some(v) => match json_str(v) {
                Some(s) => s,
                None => {
                    proof {
                        lemma_edge_pairs_err(es, i + 1);
                    }
                    return Err(Error::DataFormat(Field::LanguageName));
                },
            },
            None => {
                proof {
                    lemma_edge_pairs_err(es, i + 1);
                }
                return Err(Error::DataFormat(Field::LanguageName));
            },
        };
        let ghost pre = out.deep_view();
        out.push((name, size));
        assert(out.deep_view() =~= pre.push((name@, size)));
        i += 1;
    }
    assert(es.take(i as int) =~= es);
    Ok(out)
}

/// The per-repository (language, size) pairs of a language response, one
/// list per repository, in the order of the response. A missing or
/// mistyped field fails with the error of the first one met: repository
/// list, language list, size (which must be a non-negative integer), or name.
pub fn languageRecords(data: &serde_json::Value) -> (r: Result<Vec<Vec<(String, u64)>>, Error>)
    ensures
        r matches Ok(v) ==> records_of(*data) == Ok::<Seq<Seq<(Seq<char>, u64)>>, Error>(
            v.deep_view(),
        ),
        r matches Err(e) ==> records_of(*data) == Err::<Seq<Seq<(Seq<char>, u64)>>, Error>(e),
{
    let keys: &[&str] = &["data", "viewer", "repositories", "edges"];
    assert(keys@.map_values(|k: &str| k@) == repos_path());
    let repos = match lookup(data, keys) {
        Some(v) => match json_array(v) {
            Some(a) => a,
            None => {
                return Err(Error::DataFormat(Field::Repositories));
            },
        },
        None => {
            return Err(Error::DataFormat(Field::Repositories));
        },
    };
    let ghost rs = repos@;
    let mut out: Vec<Vec<(String, u64)>> = Vec::new();
    let mut i: usize = 0;
    assert(rs.take(0) =~= Seq::<serde_json::Value>::empty());
    assert(out.deep_view() =~= Seq::<Seq<(Seq<char>, u64)>>::empty());
    while i < repos.len()
        invariant
            rs == repos@,
            array_at(*data, repos_path()) == Some(rs),
            i <= rs.len(),
            repos_pairs(rs.take(i as int)) == Ok::<Seq<Seq<(Seq<char>, u64)>>, Error>(
                out.deep_view(),
            ),
        decreases rs.len() - i,
    {
        assert(rs.take(i + 1).drop_last() =~= rs.take(i as int));
        assert(rs.take(i + 1).last() == repos@[i as int]);
        let langs = repoLanguages(&repos[i]);
        match langs {
            Ok(l) => {
                let ghost pre = out.deep_view();
                out.push(l);
                assert(out.deep_view() =~= pre.push(l.deep_view()));
            },
            Err(e) => {
                proof {
                    lemma_repos_pairs_err(rs, i + 1);
                }
                return Err(e);
            },
        }
        i += 1;
    }
    assert(rs.take(i as int) =~= rs);
    Ok(out)
}

/// The login name in a viewer-login response.
pub fn loginName(data: &serde_json::Value) -> (r: Result<String, Error>)
    ensures
        r is Err <==> str_at(*data, login_path()) is None,
        r matches Ok(s) ==> str_at(*data, login_path()) == Some(s@),
        r matches Err(e) ==> e == Error::DataFormat(Field::Login),
{
    let keys: &[&str] = &["data", "viewer", "login"];
    assert(keys@.map_values(|k: &str| k@) == login_path());
    match lookup(data, keys) {
        Some(v) => match json_str(v) {
            Some(s) => Ok(s),
            None => Err(Error::DataFormat(Field::Login)),
        },
        None => Err(Error::DataFormat(Field::Login)),
    }
}

/// A commit and the tree it points to.
pub struct CommitHash {
    pub commit_hash: String,
    pub tree_hash: String,
}

impl CommitHash {
    pub fn new(commit_hash: &str, tree_hash: &str) -> (r: CommitHash)
        ensures
            r.commit_hash@ == commit_hash@,
            r.tree_hash@ == tree_hash@,
    {
        CommitHash { commit_hash: commit_hash.to_owned(), tree_hash: tree_hash.to_owned() }
    }
}

/// A file in a tree and the hash of its content.
pub struct FileHash {
    pub path: String,
    pub hash: String,
}

impl FileHash {
    pub fn new(path: &str, hash: &str) -> (r: FileHash)
        ensures
            r.path@ == path@,
            r.hash@ == hash@,
    {
        FileHash { path: path.to_owned(), hash: hash.to_owned() }
    }
}

/// The head commit of a repository and its tree, from a head response.
pub fn headOf(data: &serde_json::Value) -> (r: Result<CommitHash, Error>)
    ensures
        str_at(*data, commit_path()) is None ==> (r matches Err(e) && e == Error::DataFormat(
            Field::CommitHash,
        )),
        str_at(*data, commit_path()) is Some && str_at(*data, tree_path()) is None ==> (r matches Err(
            e,
        ) && e == Error::DataFormat(Field::TreeHash)),
        str_at(*data, commit_path()) is Some && str_at(*data, tree_path()) is Some ==> (r matches Ok(
            h,
        ) && str_at(*data, commit_path()) == Some(h.commit_hash@) && str_at(*data, tree_path())
            == Some(h.tree_hash@)),
{
    let commit_keys: &[&str] = &["data", "repository", "object", "oid"];
    assert(commit_keys@.map_values(|k: &str| k@) == commit_path());
    let tree_keys: &[&str] = &["data", "repository", "object", "tree", "oid"];
    assert(tree_keys@.map_values(|k: &str| k@) == tree_path());
    let commit = match lookup(data, commit_keys) {
        Some(v) => match json_str(v) {
            Some(s) => s,
            None => {
                return Err(Error::DataFormat(Field::CommitHash));
            },
        },
        None => {
            return Err(Error::DataFormat(Field::CommitHash));
        },
    };
    let tree = match lookup(data, tree_keys) {
        Some(v) => match json_str(v) {
            Some(s) => s,
            None => {
                return Err(Error::DataFormat(Field::TreeHash));
            },
        },
        None => {
            return Err(Error::DataFormat(Field::TreeHash));
        },
    };
    Ok(CommitHash::new(commit.as_str(), tree.as_str()))
}

/// The hash of a newly created object (a tree or a commit).
pub fn objectSha(data: &serde_json::Value) -> (r: Result<String, Error>)
    ensures
        r is Err <==> str_at(*data, sha_path()) is None,
        r matches Ok(s) ==> str_at(*data, sha_path()) == Some(s@),
        r matches Err(e) ==> e == Error::DataFormat(Field::ObjectHash),
{
    let keys: &[&str] = &["sha"];
    assert(keys@.map_values(|k: &str| k@) == sha_path());
    match lookup(data, keys) {
        Some(v) => match json_str(v) {
            Some(s) => Ok(s),
            None => Err(Error::DataFormat(Field::ObjectHash)),
        },
        None => Err(Error::DataFormat(Field::ObjectHash)),
    }
}

} // verus!
