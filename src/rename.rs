//! The rename engine and the file-move link rewriter: from a cursor (or a
//! moved file) to one ordered set of edits over the whole vault.
use vstd::prelude::*;

use crate::model::{
    find_file, lookup, ranges_overlap, refs_disjoint, resolve, Located, Position, Range,
    Referenceable, Vault,
};
use crate::paths::{file_stem, stem_of, with_extension, with_extension_of, with_file_name, with_file_name_of};
use crate::synth::{synth_spec, synthesize, with_fragment};

verus! {

/// Replace the text of `range` in the file at `path` by `new_text`.
#[derive(Debug)]
pub struct TextEdit {
    pub path: String,
    pub range: Range,
    pub new_text: String,
}

/// One operation of an edit set.
#[derive(Debug)]
pub enum DocumentOp {
    Edit(TextEdit),
    RenameFile { old_path: String, new_path: String },
}

/// An ordered set of operations to be applied as one change.
#[derive(Debug)]
pub struct EditSet {
    pub ops: Vec<DocumentOp>,
}

/// An operation as plain values.
pub enum OpView {
    Edit(Seq<char>, Range, Seq<char>),
    RenameFile(Seq<char>, Seq<char>),
}

impl View for DocumentOp {
    type V = OpView;

    open spec fn view(&self) -> OpView {
        match self {
            DocumentOp::Edit(e) => OpView::Edit(e.path@, e.range, e.new_text@),
            DocumentOp::RenameFile { old_path, new_path } => OpView::RenameFile(
                old_path@,
                new_path@,
            ),
        }
    }
}

pub open spec fn ops_view(s: Seq<DocumentOp>) -> Seq<OpView> {
    s.map_values(|o: DocumentOp| o@)
}

impl View for EditSet {
    type V = Seq<OpView>;

    open spec fn view(&self) -> Seq<OpView> {
        ops_view(self.ops@)
    }
}

/// The text edits for the references `refs`, in their order, when `t` is
/// renamed so that references read `n`; pairings that are not rewritten are
/// skipped.
pub open spec fn edits_spec(refs: Seq<Located>, t: Referenceable, n: Seq<char>) -> Seq<OpView>
    decreases refs.len(),
{
    if refs.len() == 0 {
        Seq::empty()
    } else {
        let prev = edits_spec(refs.drop_last(), t, n);
        match synth_spec(refs.last().reference, t, n) {
            Some(s) => prev.push(OpView::Edit(refs.last().path@, refs.last().reference.data().range, s)),
            None => prev,
        }
    }
}

/// `#` repeated `level` times, a space, and the new heading name.
pub open spec fn heading_line(level: nat, name: Seq<char>) -> Seq<char> {
    Seq::new(level, |i: int| '#') + seq![' '] + name
}

/// For a rename of `t` to `new_name`: the name that references are to read,
/// and the edit of the definition site, if any. `None` for a kind that is
/// not renamed, or a heading in a file without a stem.
pub open spec fn rename_plan(t: Referenceable, new_name: Seq<char>) -> Option<(Seq<char>, Option<OpView>)> {
    match t {
        Referenceable::Heading(p, h) => match stem_of(p@) {
            Some(stem) => Some(
                (
                    with_fragment(stem, new_name),
                    Some(OpView::Edit(p@, h.range, heading_line(h.level as nat, new_name))),
                ),
            ),
            None => None,
        },
        Referenceable::File(p) => Some(
            (
                new_name,
                Some(OpView::RenameFile(
                    p@,
                    with_extension_of(with_file_name_of(p@, new_name), seq!['m', 'd']),
                )),
            ),
        ),
        Referenceable::Tag(_, _) => Some((new_name, None)),
        _ => None,
    }
}

pub open spec fn opt_seq(o: Option<OpView>) -> Seq<OpView> {
    match o {
        Some(op) => seq![op],
        None => Seq::empty(),
    }
}

/// What a rename at `pos` in `path` to `new_name` proposes: the edits of every
/// reference, then the definition-site operation; `None` where the cursor
/// resolves to nothing, to a kind that is not renamed, or to something the
/// index has no entry for.
pub open spec fn rename_spec(vault: Vault, path: Seq<char>, pos: Position, new_name: Seq<char>) -> Option<Seq<OpView>> {
    match resolve(vault.anchors@, path, pos) {
        None => None,
        Some(t) => match rename_plan(t, new_name) {
            None => None,
            Some(plan) => match lookup(vault.index@, t) {
                None => None,
                Some(refs) => Some(edits_spec(refs, t, plan.0) + opt_seq(plan.1)),
            },
        },
    }
}

/// What re-linking after a move of `old_path` to `new_path` proposes: the
/// edits of every link to the file; `None` where the file is not tracked,
/// the new path has no stem, the index has no entry, or nothing is to change.
pub open spec fn relink_spec(vault: Vault, old_path: Seq<char>, new_path: Seq<char>) -> Option<Seq<OpView>> {
    match find_file(vault.files@, old_path, 0) {
        None => None,
        Some(i) => {
            let t = Referenceable::File(vault.files@[i].path);
            match stem_of(new_path) {
                None => None,
                Some(stem) => match lookup(vault.index@, t) {
                    None => None,
                    Some(refs) => {
                        let e = edits_spec(refs, t, stem);
                        if e.len() == 0 {
                            None
                        } else {
                            Some(e)
                        }
                    },
                },
            }
        },
    }
}

fn collect_edits(refs: &Vec<Located>, t: &Referenceable, n: &str) -> (r: Vec<DocumentOp>)
    ensures
        ops_view(r@) == edits_spec(refs@, *t, n@),
{
    let mut out: Vec<DocumentOp> = Vec::new();
    let mut i: usize = 0;
    assert(refs@.subrange(0, 0) =~= Seq::<Located>::empty());
    assert(ops_view(out@) =~= Seq::<OpView>::empty());
    while i < refs.len()
        invariant
            i <= refs@.len(),
            ops_view(out@) == edits_spec(refs@.subrange(0, i as int), *t, n@),
        decreases refs@.len() - i,
    {
        let l = &refs[i];
        assert(refs@.subrange(0, i + 1).drop_last() =~= refs@.subrange(0, i as int));
        assert(refs@.subrange(0, i + 1).last() == refs@[i as int]);
        match synthesize(&l.reference, t, n) {
            Some(s) => {
                let op = DocumentOp::Edit(
                    TextEdit { path: l.path.clone(), range: l.reference.range(), new_text: s },
                );
                let ghost before = out@;
                out.push(op);
                assert(ops_view(out@) =~= ops_view(before).push(op@));
            },
            None => {},
        }
        i += 1;
    }
    assert(refs@.subrange(0, refs@.len() as int) =~= refs@);
    out
}

fn heading_line_exec(level: usize, name: &str) -> (r: String)
    ensures
        r@ == heading_line(level as nat, name@),
{
    let mut r = String::new();
    let mut i: usize = 0;
    while i < level
        invariant
            i <= level,
            r@ == Seq::new(i as nat, |k: int| '#'),
        decreases level - i,
    {
        r.append("#");
        proof {
            reveal_strlit("#");
        }
        assert(r@ =~= Seq::new((i + 1) as nat, |k: int| '#'));
        i += 1;
    }
    r.append(" ");
    r.append(name);
    proof {
        reveal_strlit(" ");
    }
    assert(r@ =~= heading_line(level as nat, name@));
    r
}

/// Rename what the cursor at `position` in the file at `path` sits on (a
/// file, a heading or a tag) to `new_name`, rewriting every reference to it.
/// The result lists the text edits of the references in the order the index
/// gives them, then the edit of the heading line or the file rename.
pub fn rename(vault: &Vault, path: &str, position: Position, new_name: &str) -> (r: Option<EditSet>)
    ensures
        match r {
            Some(es) => rename_spec(*vault, path@, position, new_name@) == Some(es@),
            None => rename_spec(*vault, path@, position, new_name@) is None,
        },
{
    let t = match vault.resolve_at(path, position) {
        Some(t) => t,
        None => return None,
    };
    let (new_ref_name, definition): (String, Option<DocumentOp>) = match t {
        Referenceable::Heading(p, h) => {
            let stem = match file_stem(p.as_str()) {
                Some(s) => s,
                None => return None,
            };
            let edit = TextEdit {
                path: p.clone(),
                range: h.range,
                new_text: heading_line_exec(h.level, new_name),
            };
            let mut name = stem;
            name.append("#");
            name.append(new_name);
            proof {
                reveal_strlit("#");
            }
            assert(name@ =~= with_fragment(stem_of(p@)->Some_0, new_name@));
            (name, Some(DocumentOp::Edit(edit)))
        },
        Referenceable::File(p) => {
            let sibling = with_file_name(p.as_str(), new_name);
            proof {
                reveal_strlit("md");
            }
            assert("md"@ =~= seq!['m', 'd']);
            let new_path = with_extension(sibling.as_str(), "md");
            (String::from_str(new_name), Some(DocumentOp::RenameFile { old_path: p.clone(), new_path }))
        },
        Referenceable::Tag(_, _) => (String::from_str(new_name), None),
        _ => return None,
    };
    let ghost plan = rename_plan(*t, new_name@);
    assert(plan matches Some(pl) && pl.0 == new_ref_name@ && pl.1 == match definition {
        Some(op) => Some(op@),
        None => None::<OpView>,
    });
    let refs = match vault.references_to(t) {
        Some(refs) => refs,
        None => return None,
    };
    let mut ops = collect_edits(refs, t, new_ref_name.as_str());
    let ghost edits = ops@;
    match definition {
        Some(op) => {
            ops.push(op);
        },
        None => {},
    }
    assert(ops_view(ops@) =~= ops_view(edits) + opt_seq(plan->Some_0.1));
    Some(EditSet { ops })
}

/// Re-link the vault after the file at `old_path` was moved to `new_path`:
/// every link to it is rewritten to the new file stem, keeping fragments and
/// aliases. `None` where nothing is to be rewritten.
pub fn rename_links_for_file(vault: &Vault, old_path: &str, new_path: &str) -> (r: Option<EditSet>)
    ensures
        match r {
            Some(es) => relink_spec(*vault, old_path@, new_path@) == Some(es@),
            None => relink_spec(*vault, old_path@, new_path@) is None,
        },
{
    let i = match vault.file_index(old_path) {
        Some(i) => i,
        None => return None,
    };
    let t = Referenceable::File(vault.files[i].path.clone());
    let new_ref_name = match file_stem(new_path) {
        Some(s) => s,
        None => return None,
    };
    let refs = match vault.references_to(&t) {
        Some(refs) => refs,
        None => return None,
    };
    let ops = collect_edits(refs, &t, new_ref_name.as_str());
    if ops.len() == 0 {
        None
    } else {
        Some(EditSet { ops })
    }
}

/// No two text edits of `ops` on one file overlap.
pub open spec fn edits_disjoint(ops: Seq<OpView>) -> bool {
    forall|i: int, j: int|
        0 <= i < ops.len() && 0 <= j < ops.len() && i != j ==> #[trigger] edits_apart(ops[i], ops[j])
}

/// Two operations are not text edits of one file over a common span.
pub open spec fn edits_apart(x: OpView, y: OpView) -> bool {
    match (x, y) {
        (OpView::Edit(p, a, _), OpView::Edit(q, b, _)) => p == q ==> !ranges_overlap(a, b),
        _ => true,
    }
}

proof fn lemma_edits_from_refs(refs: Seq<Located>, t: Referenceable, n: Seq<char>)
    ensures
        forall|k: int|
            0 <= k < edits_spec(refs, t, n).len() ==> exists|i: int|
                0 <= i < refs.len() && #[trigger] edits_spec(refs, t, n)[k] == OpView::Edit(
                    refs[i].path@,
                    refs[i].reference.data().range,
                    synth_spec(refs[i].reference, t, n)->Some_0,
                ),
    decreases refs.len(),
{
    if refs.len() > 0 {
        let pre = refs.drop_last();
        lemma_edits_from_refs(pre, t, n);
        assert forall|k: int| 0 <= k < edits_spec(refs, t, n).len() implies exists|i: int|
            0 <= i < refs.len() && #[trigger] edits_spec(refs, t, n)[k] == OpView::Edit(
                refs[i].path@,
                refs[i].reference.data().range,
                synth_spec(refs[i].reference, t, n)->Some_0,
            ) by {
            if k < edits_spec(pre, t, n).len() {
                let i = choose|i: int|
                    0 <= i < pre.len() && #[trigger] edits_spec(pre, t, n)[k] == OpView::Edit(
                        pre[i].path@,
                        pre[i].reference.data().range,
                        synth_spec(pre[i].reference, t, n)->Some_0,
                    );
                assert(pre[i] == refs[i]);
            } else {
                assert(refs.last() == refs[refs.len() - 1]);
            }
        }
    }
}

/// Rewrites inherit disjointness: where no two references of a file
/// overlap, neither do the text edits written over them.
pub proof fn lemma_edits_disjoint(refs: Seq<Located>, t: Referenceable, n: Seq<char>)
    requires
        refs_disjoint(refs),
    ensures
        edits_disjoint(edits_spec(refs, t, n)),
    decreases refs.len(),
{
    if refs.len() > 0 {
        let pre = refs.drop_last();
        assert(refs_disjoint(pre)) by {
            assert forall|i: int, j: int|
                0 <= i < pre.len() && 0 <= j < pre.len() && i != j && pre[i].path@ == pre[j].path@
                    implies !ranges_overlap(pre[i].reference.data().range, pre[j].reference.data().range) by {
                assert(pre[i] == refs[i] && pre[j] == refs[j]);
            }
        }
        lemma_edits_disjoint(pre, t, n);
        lemma_edits_from_refs(pre, t, n);
        let e = edits_spec(refs, t, n);
        let ep = edits_spec(pre, t, n);
        let last = refs.len() - 1;
        assert(refs.last() == refs[last]);
        assert forall|i: int, j: int| 0 <= i < e.len() && 0 <= j < e.len() && i != j implies #[trigger] edits_apart(
            e[i],
            e[j],
        ) by {
            if i < ep.len() && j < ep.len() {
                assert(e[i] == ep[i] && e[j] == ep[j]);
            } else if i < ep.len() {
                let si = choose|s: int|
                    0 <= s < pre.len() && #[trigger] ep[i] == OpView::Edit(
                        pre[s].path@,
                        pre[s].reference.data().range,
                        synth_spec(pre[s].reference, t, n)->Some_0,
                    );
                assert(e[i] == ep[i]);
                assert(pre[si] == refs[si]);
            } else if j < ep.len() {
                let sj = choose|s: int|
                    0 <= s < pre.len() && #[trigger] ep[j] == OpView::Edit(
                        pre[s].path@,
                        pre[s].reference.data().range,
                        synth_spec(pre[s].reference, t, n)->Some_0,
                    );
                assert(e[j] == ep[j]);
                assert(pre[sj] == refs[sj]);
            }
        }
    }
}

proof fn lemma_lookup_in_index(index: Seq<crate::model::Incoming>, t: Referenceable)
    ensures
        lookup(index, t) matches Some(refs) ==> exists|k: int|
            0 <= k < index.len() && (#[trigger] index[k]).references@ == refs,
    decreases index.len(),
{
    if index.len() > 0 && !index[0].target.same_subject(t) {
        lemma_lookup_in_index(index.drop_first(), t);
        if let Some(refs) = lookup(index, t) {
            let k = choose|k: int|
                0 <= k < index.drop_first().len() && (#[trigger] index.drop_first()[k]).references@
                    == refs;
            assert(index[k + 1] == index.drop_first()[k]);
        }
    }
}

/// In a well-formed vault, the text edits that a rename proposes for the
/// references of one file never overlap.
pub proof fn lemma_rename_edits_disjoint(
    vault: Vault,
    path: Seq<char>,
    pos: Position,
    new_name: Seq<char>,
)
    requires
        vault.wf(),
        resolve(vault.anchors@, path, pos) is Some,
        rename_plan(resolve(vault.anchors@, path, pos)->Some_0, new_name) is Some,
        lookup(vault.index@, resolve(vault.anchors@, path, pos)->Some_0) is Some,
    ensures
        ({
            let t = resolve(vault.anchors@, path, pos)->Some_0;
            let refs = lookup(vault.index@, t)->Some_0;
            &&& rename_spec(vault, path, pos, new_name) == Some(
                edits_spec(refs, t, rename_plan(t, new_name)->Some_0.0) + opt_seq(
                    rename_plan(t, new_name)->Some_0.1,
                ),
            )
            &&& edits_disjoint(edits_spec(refs, t, rename_plan(t, new_name)->Some_0.0))
        }),
{
    let t = resolve(vault.anchors@, path, pos)->Some_0;
    lemma_lookup_in_index(vault.index@, t);
    let refs = lookup(vault.index@, t)->Some_0;
    let k = choose|k: int| 0 <= k < vault.index@.len() && (#[trigger] vault.index@[k]).references@ == refs;
    assert(refs_disjoint(vault.index@[k].references@));
    lemma_edits_disjoint(refs, t, rename_plan(t, new_name)->Some_0.0);
}

} // verus!
