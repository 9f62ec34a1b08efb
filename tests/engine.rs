use vault_edit::completion::FrontmatterCompleter;
use vault_edit::model::{
    references_disjoint, Anchor, FmValue, FrontMatter, Heading, Incoming, Located, NoteFile,
    Position, Range, RefData, Reference, Referenceable, Vault,
};
use vault_edit::rename::{rename, rename_links_for_file, DocumentOp, EditSet, TextEdit};
use vault_edit::synth::synthesize;

fn pos(line: u32, character: u32) -> Position {
    Position { line, character }
}

fn span(line: u32, from: u32, to: u32) -> Range {
    Range { start: pos(line, from), end: pos(line, to) }
}

fn data(range: Range, display: Option<&str>, raw: &str) -> RefData {
    RefData {
        range,
        display_text: display.map(|d| d.to_string()),
        reference_text: raw.to_string(),
    }
}

fn located(path: &str, reference: Reference) -> Located {
    Located { path: path.to_string(), reference }
}

fn note(path: &str) -> NoteFile {
    NoteFile { path: path.to_string(), lines: vec![], frontmatter: None, frontmatter_range: None }
}

fn heading(path: &str, text: &str, level: usize, line: u32) -> Referenceable {
    Referenceable::Heading(
        path.to_string(),
        Heading { text: text.to_string(), level, range: span(line, 0, 40) },
    )
}

fn file(path: &str) -> Referenceable {
    Referenceable::File(path.to_string())
}

fn tag(path: &str, name: &str) -> Referenceable {
    Referenceable::Tag(path.to_string(), name.to_string())
}

fn edits(es: &EditSet) -> Vec<(String, Range, String)> {
    es.ops
        .iter()
        .filter_map(|op| match op {
            DocumentOp::Edit(TextEdit { path, range, new_text }) => {
                Some((path.clone(), *range, new_text.clone()))
            }
            _ => None,
        })
        .collect()
}

fn tag_rename(raw: &str, old: &str, new: &str) -> Option<String> {
    let r = Reference::Tag(data(span(0, 0, 10), None, raw));
    synthesize(&r, &tag("/v/a.md", old), new)
}

#[test]
fn tag_rename_replaces_first_segment() {
    assert_eq!(tag_rename("parent/child", "parent", "renamed"), Some("#renamed/child".to_string()));
}

#[test]
fn tag_rename_replaces_inner_segment() {
    assert_eq!(tag_rename("parent/child", "child", "x"), Some("#parent/x".to_string()));
}

#[test]
fn tag_rename_replaces_only_first_match() {
    assert_eq!(tag_rename("a/a", "a", "b"), Some("#b/a".to_string()));
}

#[test]
fn tag_rename_without_match_keeps_text() {
    assert_eq!(tag_rename("other", "a", "b"), Some("#other".to_string()));
}

#[test]
fn synthesis_table_rows() {
    let d = Some("alias");
    let wiki_file = Reference::WikiFileLink(data(span(0, 0, 9), d, "[[Old|alias]]"));
    let wiki_heading =
        Reference::WikiHeadingLink(data(span(0, 0, 9), None, "[[Old#Sec]]"), "Old".into(), "Sec".into());
    let wiki_block =
        Reference::WikiIndexedBlockLink(data(span(0, 0, 9), None, "[[Old#^b1]]"), "Old".into(), "^b1".into());
    let md_file = Reference::MDFileLink(data(span(0, 0, 9), d, "[alias](Old)"));
    let md_heading =
        Reference::MDHeadingLink(data(span(0, 0, 9), None, "[x](Old#Sec)"), "Old".into(), "Sec".into());
    let md_block =
        Reference::MDIndexedBlockLink(data(span(0, 0, 9), d, "[x](Old#^b1)"), "Old".into(), "^b1".into());
    let f = file("/v/Old.md");
    let h = heading("/v/Old.md", "Sec", 2, 3);
    assert_eq!(synthesize(&wiki_file, &f, "New"), Some("[[New|alias]]".to_string()));
    assert_eq!(synthesize(&wiki_heading, &f, "New"), Some("[[New#Sec]]".to_string()));
    assert_eq!(synthesize(&wiki_block, &f, "New"), Some("[[New#^b1]]".to_string()));
    assert_eq!(synthesize(&md_file, &f, "New"), Some("[|alias](New)".to_string()));
    assert_eq!(synthesize(&md_heading, &f, "New"), Some("[](New#Sec)".to_string()));
    assert_eq!(synthesize(&md_block, &f, "New"), Some("[|alias](New#^b1)".to_string()));
    assert_eq!(synthesize(&wiki_heading, &h, "Old#Top"), Some("[[Old#Top]]".to_string()));
    assert_eq!(synthesize(&md_heading, &h, "Old#Top"), Some("[](Old#Top)".to_string()));
}

#[test]
fn synthesis_skips_other_pairings() {
    let h = heading("/v/Old.md", "Sec", 2, 3);
    let wiki_file = Reference::WikiFileLink(data(span(0, 0, 9), None, "[[Old]]"));
    let wiki_block =
        Reference::WikiIndexedBlockLink(data(span(0, 0, 9), None, "[[Old#^b1]]"), "Old".into(), "^b1".into());
    let t = Reference::Tag(data(span(0, 0, 4), None, "tag"));
    let foot = Reference::Footnote(data(span(0, 0, 4), None, "[^1]"));
    let link_ref = Reference::LinkRef(data(span(0, 0, 4), None, "[x]"));
    assert_eq!(synthesize(&wiki_file, &h, "Old#New"), None);
    assert_eq!(synthesize(&wiki_block, &h, "Old#New"), None);
    assert_eq!(synthesize(&t, &file("/v/Old.md"), "New"), None);
    assert_eq!(synthesize(&foot, &file("/v/Old.md"), "New"), None);
    assert_eq!(synthesize(&link_ref, &tag("/v/Old.md", "x"), "y"), None);
}

#[test]
fn synthesis_round_trip_restores_text() {
    // a wiki heading link rewritten for a file rename and back
    let original = "[[Old#Sec|alias]]";
    let r = Reference::WikiHeadingLink(data(span(0, 0, 17), Some("alias"), original), "Old".into(), "Sec".into());
    let out = synthesize(&r, &file("/v/Old.md"), "New").unwrap();
    assert_eq!(out, "[[New#Sec|alias]]");
    let r2 = Reference::WikiHeadingLink(data(span(0, 0, 17), Some("alias"), &out), "New".into(), "Sec".into());
    assert_eq!(synthesize(&r2, &file("/v/New.md"), "Old"), Some(original.to_string()));
    // a hierarchical tag renamed and back
    let out = tag_rename("parent/child", "parent", "renamed").unwrap();
    assert_eq!(tag_rename(&out[1..], "renamed", "parent"), Some("#parent/child".to_string()));
}

fn heading_vault() -> Vault {
    let target = heading("/v/Notes.md", "Old Heading", 2, 4);
    Vault {
        files: vec![note("/v/Notes.md"), note("/v/Other.md")],
        anchors: vec![Anchor { path: "/v/Notes.md".into(), range: span(4, 0, 14), target: heading("/v/Notes.md", "Old Heading", 2, 4) }],
        index: vec![Incoming {
            target,
            references: vec![
                located("/v/Other.md", Reference::WikiHeadingLink(
                    data(span(1, 3, 30), Some("alias"), "[[Notes#Old Heading|alias]]"),
                    "Notes".into(),
                    "Old Heading".into(),
                )),
                located("/v/Other.md", Reference::MDHeadingLink(
                    data(span(2, 0, 24), None, "[see](Notes#Old Heading)"),
                    "Notes".into(),
                    "Old Heading".into(),
                )),
            ],
        }],
    }
}

#[test]
fn heading_rename_keeps_file_and_alias() {
    let v = heading_vault();
    let es = rename(&v, "/v/Notes.md", pos(4, 5), "New Heading").unwrap();
    assert_eq!(es.ops.len(), 3);
    let e = edits(&es);
    assert_eq!(e[0], ("/v/Other.md".to_string(), span(1, 3, 30), "[[Notes#New Heading|alias]]".to_string()));
    assert_eq!(e[1], ("/v/Other.md".to_string(), span(2, 0, 24), "[](Notes#New Heading)".to_string()));
    // the heading line comes last, at its level
    assert_eq!(e[2], ("/v/Notes.md".to_string(), span(4, 0, 40), "## New Heading".to_string()));
}

fn file_vault() -> Vault {
    Vault {
        files: vec![note("/v/Old.md"), note("/v/Other.md")],
        anchors: vec![Anchor { path: "/v/Other.md".into(), range: span(0, 0, 15), target: file("/v/Old.md") }],
        index: vec![Incoming {
            target: file("/v/Old.md"),
            references: vec![
                located("/v/Other.md", Reference::WikiHeadingLink(
                    data(span(0, 0, 15), None, "[[Old#Section]]"),
                    "Old".into(),
                    "Section".into(),
                )),
                located("/v/Other.md", Reference::WikiFileLink(data(span(1, 0, 13), Some("o"), "[[Old|o]]"))),
                located("/v/Third.md", Reference::MDFileLink(data(span(5, 2, 12), None, "[x](Old)"))),
            ],
        }],
    }
}

#[test]
fn file_rename_updates_fragment_links() {
    let v = file_vault();
    let es = rename(&v, "/v/Other.md", pos(0, 4), "New").unwrap();
    let e = edits(&es);
    assert_eq!(e.len(), 3);
    assert_eq!(e[0].2, "[[New#Section]]");
    assert_eq!(e[1].2, "[[New|o]]");
    assert_eq!(e[2], ("/v/Third.md".to_string(), span(5, 2, 12), "[](New)".to_string()));
    match es.ops.last().unwrap() {
        DocumentOp::RenameFile { old_path, new_path } => {
            assert_eq!(old_path, "/v/Old.md");
            assert_eq!(new_path, "/v/New.md");
        }
        other => panic!("expected a file rename last, got {:?}", other),
    }
}

#[test]
fn tag_rename_through_vault() {
    let v = Vault {
        files: vec![note("/v/a.md")],
        anchors: vec![Anchor { path: "/v/a.md".into(), range: span(2, 0, 7), target: tag("/v/a.md", "parent") }],
        index: vec![Incoming {
            target: tag("/v/a.md", "parent"),
            references: vec![
                located("/v/a.md", Reference::Tag(data(span(2, 0, 7), None, "parent"))),
                located("/v/b.md", Reference::Tag(data(span(0, 0, 13), None, "parent/child"))),
            ],
        }],
    };
    let es = rename(&v, "/v/a.md", pos(2, 3), "renamed").unwrap();
    let e = edits(&es);
    assert_eq!(es.ops.len(), 2);
    assert_eq!(e[0].2, "#renamed");
    assert_eq!(e[1].2, "#renamed/child");
}

#[test]
fn rename_on_plain_text_is_none() {
    let v = heading_vault();
    assert!(rename(&v, "/v/Notes.md", pos(7, 3), "X").is_none());
    // same position in another file
    assert!(rename(&v, "/v/Other.md", pos(4, 5), "X").is_none());
}

#[test]
fn rename_of_unsupported_kind_is_none() {
    let block = Referenceable::IndexedBlock("/v/a.md".into(), "^b1".into());
    let v = Vault {
        files: vec![note("/v/a.md")],
        anchors: vec![Anchor { path: "/v/a.md".into(), range: span(0, 0, 5), target: block }],
        index: vec![Incoming { target: Referenceable::IndexedBlock("/v/a.md".into(), "^b1".into()), references: vec![] }],
    };
    assert!(rename(&v, "/v/a.md", pos(0, 1), "x").is_none());
}

#[test]
fn rename_without_index_entry_is_none() {
    let mut v = file_vault();
    v.index.clear();
    assert!(rename(&v, "/v/Other.md", pos(0, 4), "New").is_none());
}

#[test]
fn rename_without_references_keeps_definition() {
    let mut v = file_vault();
    v.index[0].references.clear();
    let es = rename(&v, "/v/Other.md", pos(0, 4), "New").unwrap();
    assert_eq!(es.ops.len(), 1);
    let v = Vault {
        files: vec![note("/v/a.md")],
        anchors: vec![Anchor { path: "/v/a.md".into(), range: span(0, 0, 4), target: tag("/v/a.md", "t") }],
        index: vec![Incoming { target: tag("/v/a.md", "t"), references: vec![] }],
    };
    let es = rename(&v, "/v/a.md", pos(0, 1), "u").unwrap();
    assert!(es.ops.is_empty());
}

#[test]
fn relink_after_move() {
    let v = file_vault();
    let es = rename_links_for_file(&v, "/v/Old.md", "/w/Moved.md").unwrap();
    let e = edits(&es);
    assert_eq!(es.ops.len(), 3);
    assert_eq!(e[0].2, "[[Moved#Section]]");
    assert_eq!(e[1].2, "[[Moved|o]]");
    assert_eq!(e[2].2, "[](Moved)");
}

#[test]
fn relink_is_none_without_work() {
    let v = file_vault();
    assert!(rename_links_for_file(&v, "/v/Missing.md", "/v/New.md").is_none());
    let mut v = file_vault();
    v.index[0].references.clear();
    assert!(rename_links_for_file(&v, "/v/Old.md", "/v/New.md").is_none());
    let mut v = file_vault();
    v.index.clear();
    assert!(rename_links_for_file(&v, "/v/Old.md", "/v/New.md").is_none());
}

#[test]
fn overlapping_references_are_rejected() {
    let ok = vec![
        located("/v/a.md", Reference::Tag(data(span(0, 0, 4), None, "tag"))),
        located("/v/a.md", Reference::Tag(data(span(0, 4, 8), None, "tag"))),
        located("/v/b.md", Reference::Tag(data(span(0, 2, 6), None, "tag"))),
    ];
    assert!(references_disjoint(&ok));
    let bad = vec![
        located("/v/a.md", Reference::Tag(data(span(0, 0, 5), None, "tag"))),
        located("/v/a.md", Reference::Tag(data(span(0, 4, 8), None, "tag"))),
    ];
    assert!(!references_disjoint(&bad));
    assert!(references_disjoint(&vec![]));
}

fn fm(entries: Vec<(&str, FmValue)>) -> FrontMatter {
    FrontMatter { entries: entries.into_iter().map(|(k, v)| (k.to_string(), v)).collect() }
}

fn list(items: &[&str]) -> FmValue {
    FmValue::List(items.iter().map(|s| s.to_string()).collect())
}

fn completion_vault() -> Vault {
    let lines = ["---", "title: Note", "tags:", "  - ", "---", "body"];
    Vault {
        files: vec![
            NoteFile {
                path: "/v/a.md".into(),
                lines: lines.iter().map(|s| s.to_string()).collect(),
                frontmatter: Some(fm(vec![("title", FmValue::Text("Note".into())), ("tags", list(&["b", "a", "a"]))])),
                frontmatter_range: Some(Range { start: pos(0, 0), end: pos(4, 3) }),
            },
            NoteFile {
                path: "/v/b.md".into(),
                lines: vec![],
                frontmatter: Some(fm(vec![("tags", list(&["b", "a", "a"])), ("alias", FmValue::Other)])),
                frontmatter_range: Some(Range { start: pos(0, 0), end: pos(3, 3) }),
            },
            note("/v/c.md"),
        ],
        anchors: vec![],
        index: vec![],
    }
}

#[test]
fn completion_only_inside_block() {
    let v = completion_vault();
    assert!(FrontmatterCompleter::construct(&v, "/v/a.md", 0, 0).is_none());
    assert!(FrontmatterCompleter::construct(&v, "/v/a.md", 4, 0).is_none());
    assert!(FrontmatterCompleter::construct(&v, "/v/a.md", 5, 0).is_none());
    assert!(FrontmatterCompleter::construct(&v, "/v/c.md", 1, 0).is_none());
    assert!(FrontmatterCompleter::construct(&v, "/v/none.md", 1, 0).is_none());
}

#[test]
fn list_completion_dedups_and_sorts() {
    let v = completion_vault();
    let c = FrontmatterCompleter::construct(&v, "/v/a.md", 3, 4).unwrap();
    assert_eq!(c.completions(), vec!["a".to_string(), "b".to_string()]);
    assert_eq!(c.completion_filter_text(), "");
}

#[test]
fn list_completion_prefix() {
    let mut v = completion_vault();
    v.files[0].lines[3] = "  - ab".to_string();
    let c = FrontmatterCompleter::construct(&v, "/v/a.md", 3, 5).unwrap();
    assert_eq!(c.completion_filter_text(), "a");
    // a cursor before the item text gives an empty prefix
    let c = FrontmatterCompleter::construct(&v, "/v/a.md", 3, 1).unwrap();
    assert_eq!(c.completion_filter_text(), "");
}

#[test]
fn list_completion_needs_a_key() {
    let mut v = completion_vault();
    v.files[0].lines[2] = "tags".to_string();
    v.files[0].lines[1] = "title".to_string();
    assert!(FrontmatterCompleter::construct(&v, "/v/a.md", 3, 4).is_none());
}

#[test]
fn key_completion_lists_all_keys() {
    let v = completion_vault();
    let c = FrontmatterCompleter::construct(&v, "/v/a.md", 1, 3).unwrap();
    assert_eq!(
        c.completions(),
        vec!["alias".to_string(), "tags".to_string(), "title".to_string()]
    );
    assert_eq!(c.completion_filter_text(), "tit");
    let c = FrontmatterCompleter::construct(&v, "/v/a.md", 2, 40).unwrap();
    assert_eq!(c.completion_filter_text(), "tags:");
}

#[test]
fn completion_scoping_example() {
    let lines = ["---", "tags:", "  - ", "title: x", "---"];
    let v = Vault {
        files: vec![NoteFile {
            path: "/v/n.md".into(),
            lines: lines.iter().map(|s| s.to_string()).collect(),
            frontmatter: Some(fm(vec![("tags", list(&["z", "m"])), ("title", FmValue::Text("x".into()))])),
            frontmatter_range: Some(Range { start: pos(0, 0), end: pos(4, 3) }),
        }],
        anchors: vec![],
        index: vec![],
    };
    assert!(FrontmatterCompleter::construct(&v, "/v/n.md", 0, 0).is_none());
    assert!(FrontmatterCompleter::construct(&v, "/v/n.md", 4, 0).is_none());
    let c = FrontmatterCompleter::construct(&v, "/v/n.md", 2, 4).unwrap();
    assert_eq!(c.completions(), vec!["m".to_string(), "z".to_string()]);
}
