use github_profile::error::{Error, Field};
use github_profile::github::{headOf, languageRecords, loginName, objectSha, repoCount, CommitHash, FileHash};

fn json(s: &str) -> serde_json::Value {
    serde_json::from_str(s).unwrap()
}

#[test]
fn repo_count_is_read() {
    let v = json(r#"{"data":{"viewer":{"repositories":{"totalCount":17}}}}"#);
    assert_eq!(repoCount(&v), Ok(17));
    let bad = json(r#"{"data":{"viewer":{"repositories":{"totalCount":"17"}}}}"#);
    assert_eq!(repoCount(&bad), Err(Error::DataFormat(Field::RepoCount)));
    assert_eq!(repoCount(&json("{}")), Err(Error::DataFormat(Field::RepoCount)));
}

#[test]
fn language_records_are_read() {
    let v = json(
        r#"{"data":{"viewer":{"repositories":{"edges":[
            {"node":{"languages":{"edges":[
                {"size":100,"node":{"name":"Rust"}},
                {"size":20,"node":{"name":"Shell"}}]}}},
            {"node":{"languages":{"edges":[]}}},
            {"node":{"languages":{"edges":[{"size":250,"node":{"name":"Rust"}}]}}}
        ]}}}}"#,
    );
    let recs = languageRecords(&v).unwrap();
    assert_eq!(
        recs,
        vec![
            vec![("Rust".to_string(), 100), ("Shell".to_string(), 20)],
            vec![],
            vec![("Rust".to_string(), 250)],
        ]
    );
    let u = github_profile::usage::aggregate(&recs).unwrap();
    assert_eq!(u.entry(0), ("Rust".to_string(), 350));
}

#[test]
fn language_records_report_bad_fields() {
    let no_repos = json(r#"{"data":{"viewer":{"repositories":{}}}}"#);
    assert_eq!(languageRecords(&no_repos), Err(Error::DataFormat(Field::Repositories)));
    let no_langs = json(r#"{"data":{"viewer":{"repositories":{"edges":[{"node":{}}]}}}}"#);
    assert_eq!(languageRecords(&no_langs), Err(Error::DataFormat(Field::Languages)));
    let neg = json(
        r#"{"data":{"viewer":{"repositories":{"edges":[{"node":{"languages":{"edges":[
            {"size":-5,"node":{"name":"Rust"}}]}}}]}}}}"#,
    );
    assert_eq!(languageRecords(&neg), Err(Error::DataFormat(Field::LanguageSize)));
    let text_size = json(
        r#"{"data":{"viewer":{"repositories":{"edges":[{"node":{"languages":{"edges":[
            {"size":"5","node":{"name":"Rust"}}]}}}]}}}}"#,
    );
    assert_eq!(languageRecords(&text_size), Err(Error::DataFormat(Field::LanguageSize)));
    let bad_name = json(
        r#"{"data":{"viewer":{"repositories":{"edges":[{"node":{"languages":{"edges":[
            {"size":5,"node":{"name":7}}]}}}]}}}}"#,
    );
    assert_eq!(languageRecords(&bad_name), Err(Error::DataFormat(Field::LanguageName)));
}

#[test]
fn login_is_read() {
    let v = json(r#"{"data":{"viewer":{"login":"octocat"}}}"#);
    assert_eq!(loginName(&v), Ok("octocat".to_string()));
    assert_eq!(loginName(&json("[]")), Err(Error::DataFormat(Field::Login)));
}

#[test]
fn head_is_read() {
    let v = json(r#"{"data":{"repository":{"object":{"oid":"abc","tree":{"oid":"def"}}}}}"#);
    let h = headOf(&v).unwrap();
    assert_eq!(h.commit_hash, "abc");
    assert_eq!(h.tree_hash, "def");
    let no_tree = json(r#"{"data":{"repository":{"object":{"oid":"abc"}}}}"#);
    assert!(matches!(headOf(&no_tree), Err(Error::DataFormat(Field::TreeHash))));
    assert!(matches!(headOf(&json("{}")), Err(Error::DataFormat(Field::CommitHash))));
}

#[test]
fn object_sha_is_read() {
    assert_eq!(objectSha(&json(r#"{"sha":"123"}"#)), Ok("123".to_string()));
    assert_eq!(objectSha(&json(r#"{"sha":1}"#)), Err(Error::DataFormat(Field::ObjectHash)));
}

#[test]
fn hashes_hold_their_text() {
    let c = CommitHash::new("c1", "t1");
    assert_eq!((c.commit_hash.as_str(), c.tree_hash.as_str()), ("c1", "t1"));
    let f = FileHash::new("profile.svg", "f1");
    assert_eq!((f.path.as_str(), f.hash.as_str()), ("profile.svg", "f1"));
}

#[test]
fn error_messages() {
    assert_eq!(Error::DataFormat(Field::LanguageSize).message(), "Invalid language size");
    assert_eq!(Error::EmptyInput.message(), "No languages to render");
}

fn one_edge(edge: &str) -> serde_json::Value {
    json(&format!(
        r#"{{"data":{{"viewer":{{"repositories":{{"edges":[{{"node":{{"languages":{{"edges":[{}]}}}}}}]}}}}}}}}"#,
        edge
    ))
}

#[test]
fn language_size_must_be_a_non_negative_integer() {
    for size in ["-5", "12.5", "\"100\"", "null"] {
        let v = one_edge(&format!(r#"{{"size":{},"node":{{"name":"Rust"}}}}"#, size));
        assert_eq!(languageRecords(&v), Err(Error::DataFormat(Field::LanguageSize)));
    }
    let missing = one_edge(r#"{"node":{"name":"Rust"}}"#);
    assert_eq!(languageRecords(&missing), Err(Error::DataFormat(Field::LanguageSize)));
    let ok = one_edge(r#"{"size":0,"node":{"name":"Rust"}}"#);
    assert_eq!(languageRecords(&ok), Ok(vec![vec![("Rust".to_string(), 0)]]));
}

#[test]
fn first_bad_field_decides_the_error() {
    let v = json(
        r#"{"data":{"viewer":{"repositories":{"edges":[
            {"node":{"languages":{"edges":[{"size":1,"node":{"name":3}}]}}},
            {"node":{}}
        ]}}}}"#,
    );
    assert_eq!(languageRecords(&v), Err(Error::DataFormat(Field::LanguageName)));
    let w = json(
        r#"{"data":{"viewer":{"repositories":{"edges":[
            {"node":{}},
            {"node":{"languages":{"edges":[{"size":"x","node":{"name":"Rust"}}]}}}
        ]}}}}"#,
    );
    assert_eq!(languageRecords(&w), Err(Error::DataFormat(Field::Languages)));
}

#[test]
fn repo_count_must_be_unsigned() {
    let neg = json(r#"{"data":{"viewer":{"repositories":{"totalCount":-1}}}}"#);
    assert_eq!(repoCount(&neg), Err(Error::DataFormat(Field::RepoCount)));
    let zero = json(r#"{"data":{"viewer":{"repositories":{"totalCount":0}}}}"#);
    assert_eq!(repoCount(&zero), Ok(0));
}

#[test]
fn login_must_be_text() {
    let v = json(r#"{"data":{"viewer":{"login":42}}}"#);
    assert_eq!(loginName(&v), Err(Error::DataFormat(Field::Login)));
    let e = json(r#"{"data":{"viewer":{"login":""}}}"#);
    assert_eq!(loginName(&e), Ok(String::new()));
}

#[test]
fn field_messages() {
    assert_eq!(Error::DataFormat(Field::RepoCount).message(), "Invalid repo count");
    assert_eq!(Error::DataFormat(Field::Login).message(), "Failed to extract user login");
    assert_eq!(
        Error::InvalidConfig.message(),
        "Canvas too narrow for the bar area, or zero font size"
    );
}
