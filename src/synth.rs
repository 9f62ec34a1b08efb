//! The link text synthesizer: the exact replacement text that each link or
//! tag syntax takes when the thing it points at is renamed.
use vstd::prelude::*;

use crate::model::{Reference, Referenceable};
use crate::text::{find_from, lemma_find_from_bounds, replace_first, replace_first_exec};

verus! {

/// `|alias` where an alias is present, nothing otherwise.
pub open spec fn display_suffix(d: Option<String>) -> Seq<char> {
    match d {
        Some(t) => seq!['|'] + t@,
        None => Seq::empty(),
    }
}

/// `[[target|alias]]`.
pub open spec fn wiki_text(target: Seq<char>, d: Option<String>) -> Seq<char> {
    seq!['[', '['] + target + display_suffix(d) + seq![']', ']']
}

/// `[|alias](target)`: the label slot holds only the alias suffix.
pub open spec fn md_text(target: Seq<char>, d: Option<String>) -> Seq<char> {
    seq!['['] + display_suffix(d) + seq![']', '('] + target + seq![')']
}

/// `name#fragment`.
pub open spec fn with_fragment(name: Seq<char>, fragment: Seq<char>) -> Seq<char> {
    name + seq!['#'] + fragment
}

/// The text that replaces reference `r` when `t` is renamed and references
/// to it are to read `n`; `None` for a pairing that is left alone.
pub open spec fn synth_spec(r: Reference, t: Referenceable, n: Seq<char>) -> Option<Seq<char>> {
    match r {
        Reference::WikiFileLink(d) => if t is File {
            Some(wiki_text(n, d.display_text))
        } else {
            None
        },
        Reference::WikiHeadingLink(d, _, f) => if t is File {
            Some(wiki_text(with_fragment(n, f@), d.display_text))
        } else if t is Heading {
            Some(wiki_text(n, d.display_text))
        } else {
            None
        },
        Reference::WikiIndexedBlockLink(d, _, f) => if t is File {
            Some(wiki_text(with_fragment(n, f@), d.display_text))
        } else {
            None
        },
        Reference::MDFileLink(d) => if t is File {
            Some(md_text(n, d.display_text))
        } else {
            None
        },
        Reference::MDHeadingLink(d, _, f) => if t is File {
            Some(md_text(with_fragment(n, f@), d.display_text))
        } else if t is Heading {
            Some(md_text(n, d.display_text))
        } else {
            None
        },
        Reference::MDIndexedBlockLink(d, _, f) => if t is File {
            Some(md_text(with_fragment(n, f@), d.display_text))
        } else {
            None
        },
        Reference::Tag(d) => match t {
            Referenceable::Tag(_, name) => Some(
                seq!['#'] + replace_first(d.reference_text@, name@, n),
            ),
            _ => None,
        },
        Reference::Footnote(_) => None,
        Reference::LinkRef(_) => None,
    }
}

pub open spec fn opt_view(s: Option<String>) -> Option<Seq<char>> {
    match s {
        Some(t) => Some(t@),
        None => None,
    }
}

fn push_display(out: &mut String, d: &Option<String>)
    ensures
        final(out)@ == old(out)@ + display_suffix(*d),
{
    match d {
        Some(t) => {
            out.append("|");
            out.append(t.as_str());
            proof {
                reveal_strlit("|");
            }
        },
        None => {
            assert(old(out)@ + display_suffix(*d) =~= old(out)@);
        },
    }
}

fn fragment_target(n: &str, f: &str) -> (r: String)
    ensures
        r@ == with_fragment(n@, f@),
{
    let mut r = String::from_str(n);
    r.append("#");
    r.append(f);
    proof {
        reveal_strlit("#");
    }
    r
}

fn wiki_link(target: &str, d: &Option<String>) -> (r: String)
    ensures
        r@ == wiki_text(target@, *d),
{
    let mut r = String::from_str("[[");
    r.append(target);
    push_display(&mut r, d);
    r.append("]]");
    proof {
        reveal_strlit("[[");
        reveal_strlit("]]");
    }
    assert(r@ =~= wiki_text(target@, *d));
    r
}

fn md_link(target: &str, d: &Option<String>) -> (r: String)
    ensures
        r@ == md_text(target@, *d),
{
    let mut r = String::from_str("[");
    push_display(&mut r, d);
    r.append("](");
    r.append(target);
    r.append(")");
    proof {
        reveal_strlit("[");
        reveal_strlit("](");
        reveal_strlit(")");
    }
    assert(r@ =~= md_text(target@, *d));
    r
}

/// The replacement text for `reference` when `target` is renamed so that
/// references to it read `new_ref_name`; `None` where the pairing of
/// reference syntax and referenceable kind is not rewritten.
pub fn synthesize(reference: &Reference, target: &Referenceable, new_ref_name: &str) -> (r: Option<
    String,
>)
    ensures
        opt_view(r) == synth_spec(*reference, *target, new_ref_name@),
{
    let is_file = matches!(target, Referenceable::File(_));
    let is_heading = matches!(target, Referenceable::Heading(_, _));
    match reference {
        Reference::WikiFileLink(d) => if is_file {
            Some(wiki_link(new_ref_name, &d.display_text))
        } else {
            None
        },
        Reference::WikiHeadingLink(d, _, f) => if is_file {
            let t = fragment_target(new_ref_name, f.as_str());
            Some(wiki_link(t.as_str(), &d.display_text))
        } else if is_heading {
            Some(wiki_link(new_ref_name, &d.display_text))
        } else {
            None
        },
        Reference::WikiIndexedBlockLink(d, _, f) => if is_file {
            let t = fragment_target(new_ref_name, f.as_str());
            Some(wiki_link(t.as_str(), &d.display_text))
        } else {
            None
        },
        Reference::MDFileLink(d) => if is_file {
            Some(md_link(new_ref_name, &d.display_text))
        } else {
            None
        },
        Reference::MDHeadingLink(d, _, f) => if is_file {
            let t = fragment_target(new_ref_name, f.as_str());
            Some(md_link(t.as_str(), &d.display_text))
        } else if is_heading {
            Some(md_link(new_ref_name, &d.display_text))
        } else {
            None
        },
        Reference::MDIndexedBlockLink(d, _, f) => if is_file {
            let t = fragment_target(new_ref_name, f.as_str());
            Some(md_link(t.as_str(), &d.display_text))
        } else {
            None
        },
        Reference::Tag(d) => match target {
            Referenceable::Tag(_, name) => {
                let replaced = replace_first_exec(
                    d.reference_text.as_str(),
                    name.as_str(),
                    new_ref_name,
                );
                let mut out = String::from_str("#");
                out.append(replaced.as_str());
                proof {
                    reveal_strlit("#");
                }
                Some(out)
            },
            _ => None,
        },
        Reference::Footnote(_) => None,
        Reference::LinkRef(_) => None,
    }
}

/// The text that the reference `r` covers: a tag's text with its `#`, a
/// link's whole raw text.
pub open spec fn source_text(r: Reference) -> Seq<char> {
    if r is Tag {
        seq!['#'] + r.data().reference_text@
    } else {
        r.data().reference_text@
    }
}

/// The fragment of a fragment-bearing link; empty for the other variants.
pub open spec fn fragment_of(r: Reference) -> Seq<char> {
    match r {
        Reference::WikiHeadingLink(_, _, f) => f@,
        Reference::WikiIndexedBlockLink(_, _, f) => f@,
        Reference::MDHeadingLink(_, _, f) => f@,
        Reference::MDIndexedBlockLink(_, _, f) => f@,
        _ => Seq::empty(),
    }
}

pub open spec fn variant_of(r: Reference) -> int {
    match r {
        Reference::WikiFileLink(_) => 0,
        Reference::WikiHeadingLink(_, _, _) => 1,
        Reference::WikiIndexedBlockLink(_, _, _) => 2,
        Reference::MDFileLink(_) => 3,
        Reference::MDHeadingLink(_, _, _) => 4,
        Reference::MDIndexedBlockLink(_, _, _) => 5,
        Reference::Tag(_) => 6,
        Reference::Footnote(_) => 7,
        Reference::LinkRef(_) => 8,
    }
}

/// `r2` is what the index holds for the text `written` once it stands over
/// `r`: the same syntax and alias, the same fragment, and `written` (less the
/// leading `#` of a tag) as its raw text.
pub open spec fn reindexed(r: Reference, r2: Reference, written: Seq<char>) -> bool {
    &&& variant_of(r2) == variant_of(r)
    &&& r2.data().display_text == r.data().display_text
    &&& fragment_of(r2) == fragment_of(r)
    &&& if r is Tag {
        written.len() > 0 && r2.data().reference_text@ == written.drop_first()
    } else {
        r2.data().reference_text@ == written
    }
}

/// Renaming tag text `s` from `o` to `n` and back restores it: the first `n`
/// of the result stands where the first `o` stood, or neither occurs.
pub open spec fn tag_round_trips(s: Seq<char>, o: Seq<char>, n: Seq<char>) -> bool {
    match find_from(s, o, 0) {
        Some(i) => find_from(replace_first(s, o, n), n, 0) == Some(i),
        None => find_from(s, n, 0) is None,
    }
}

/// Synthesis round trip: rewriting a reference for a rename from `old_name`
/// to `new_name`, then rewriting the resulting reference for the rename back
/// to `old_name`, restores the original text. For a link the original text
/// is taken to be in the form this synthesizer writes for `old_name`; for a
/// tag the first occurrence of the new name after the first rename must be
/// the one that rename wrote.
pub proof fn lemma_synthesis_round_trip(
    r: Reference,
    r2: Reference,
    t: Referenceable,
    t2: Referenceable,
    old_name: Seq<char>,
    new_name: Seq<char>,
)
    requires
        synth_spec(r, t, new_name) is Some,
        reindexed(r, r2, synth_spec(r, t, new_name)->Some_0),
        t2.kind() == t.kind(),
        t is Tag ==> t.locator() == old_name && t2.locator() == new_name,
        r is Tag ==> tag_round_trips(r.data().reference_text@, old_name, new_name),
        !(r is Tag) ==> synth_spec(r, t, old_name) == Some(r.data().reference_text@),
    ensures
        synth_spec(r2, t2, old_name) == Some(source_text(r)),
{
    if r is Tag {
        let s = r.data().reference_text@;
        let s1 = replace_first(s, old_name, new_name);
        assert((seq!['#'] + s1).drop_first() =~= s1);
        match find_from(s, old_name, 0) {
            Some(i) => {
                lemma_find_from_bounds(s, old_name, 0);
                let back = replace_first(s1, new_name, old_name);
                assert(s1.subrange(0, i) =~= s.subrange(0, i));
                assert(s1.subrange(i + new_name.len(), s1.len() as int) =~= s.subrange(
                    i + old_name.len(),
                    s.len() as int,
                ));
                assert(back =~= s);
            },
            None => {},
        }
    }
}

} // verus!
