use std::sync::Arc;
use zed_core::path::RelPath;
use zed_core::snippet_provider::{
    file_stem_to_key, split_name, ChangedFile, FileSnippets, ListOrDirect, Snippet,
    SnippetProvider, SnippetRegistry,
};

fn snippet(name: &str) -> Arc<Snippet> {
    Arc::new(Snippet {
        prefix: vec![name.to_string()],
        body: "body".to_string(),
        description: None,
        name: name.to_string(),
    })
}

fn rel(path: &str) -> RelPath {
    RelPath {
        components: path.split('/').filter(|name| !name.is_empty()).map(str::to_string).collect(),
    }
}

fn file(kind: Option<&str>, path: &str, names: &[&str]) -> FileSnippets {
    FileSnippets {
        kind: kind.map(|kind| kind.to_string()),
        path: rel(path),
        snippets: names.iter().map(|name| snippet(name)).collect(),
    }
}

fn names(snippets: Vec<Arc<Snippet>>) -> Vec<String> {
    snippets.iter().map(|snippet| snippet.name.clone()).collect()
}

fn changed(path: &str, name: &str, is_dir: bool) -> ChangedFile {
    ChangedFile {
        path: rel(path),
        name: Some(name.to_string()),
        is_dir,
    }
}

#[test]
fn files_are_named_after_languages() {
    assert_eq!(file_stem_to_key("snippets"), None);
    assert_eq!(file_stem_to_key("rust"), Some("rust".to_string()));
    assert_eq!(split_name("rust.json"), ("rust".to_string(), Some("json".to_string())));
    assert_eq!(split_name("a.b.json"), ("a.b".to_string(), Some("json".to_string())));
    assert_eq!(split_name(".json"), (".json".to_string(), None));
    assert_eq!(split_name("plain"), ("plain".to_string(), None));
    assert_eq!(split_name(".."), ("..".to_string(), None));
    assert_eq!(split_name("end."), ("end".to_string(), Some("".to_string())));
}

#[test]
fn lists_and_single_texts() {
    let single = ListOrDirect::Single("one".to_string());
    assert_eq!(single.text(), "one");
    assert_eq!(single.into_lines(), vec!["one"]);
    let list = ListOrDirect::List(vec!["a".to_string(), "b".to_string()]);
    assert_eq!(list.text(), "a\nb");
    assert_eq!(list.into_lines(), vec!["a", "b"]);
}

#[test]
fn snippets_of_a_language_come_before_those_of_all() {
    let provider = SnippetProvider {
        files: vec![
            file(None, "/p/snippets.json", &["everywhere"]),
            file(Some("rust"), "/p/rust.json", &["fn", "mod"]),
            file(Some("python"), "/p/python.json", &["def"]),
        ],
    };
    let global = SnippetProvider {
        files: vec![file(Some("rust"), "/g/rust.json", &["global"])],
    };
    let mut registry = SnippetRegistry::new();
    registry
        .snippets
        .push((Some("rust".to_string()), vec![snippet("registered")]));
    let rust = Some("rust".to_string());
    assert_eq!(
        names(provider.lookup_snippets(&rust, Some(&global), Some(&registry))),
        vec!["fn", "mod", "global", "registered"]
    );
    assert_eq!(
        names(provider.snippets_for(&rust, Some(&global), Some(&registry))),
        vec!["fn", "mod", "global", "registered", "everywhere"]
    );
    assert_eq!(names(provider.snippets_for(&None, None, None)), vec!["everywhere"]);
    assert!(registry.get_snippets(&None).is_empty());
}

#[test]
fn changed_file_is_forgotten() {
    let mut provider = SnippetProvider::new();
    provider.files.push(file(Some("rust"), "/p/rust.json", &["fn"]));
    provider.files.push(file(Some("rust"), "/q/rust.json", &["mod"]));
    provider.process_updates(&vec![
        changed("/p/rust.json", "rust.json", true),
        changed("/p/rust.toml", "rust.toml", false),
    ]);
    assert_eq!(provider.files.len(), 2);
    provider.process_updates(&vec![changed("/p/rust.json", "rust.json", false)]);
    assert_eq!(
        names(provider.snippets_for(&Some("rust".to_string()), None, None)),
        vec!["mod"]
    );
}
