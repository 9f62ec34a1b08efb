//! Front-matter completion: inside a file's front-matter block, suggest the
//! keys, or the list values under the enclosing key, used across the vault.
use vstd::prelude::*;

use crate::model::{find_file, FmValue, NoteFile, Vault};
use crate::synth::opt_view;
use crate::text::{
    compare_str, indent, indent_of, lemma_lex_lt_transitive, lex_lt, str_eq,
    strip_colons, strip_colons_exec, trim_start,
};

verus! {

/// The first value stored under `key` in front-matter entries `e`.
pub open spec fn fm_get(e: Seq<(String, FmValue)>, key: Seq<char>) -> Option<FmValue>
    decreases e.len(),
{
    if e.len() == 0 {
        None
    } else if e[0].0@ == key {
        Some(e[0].1)
    } else {
        fm_get(e.drop_first(), key)
    }
}

/// The front-matter entries of `f`; none where it has no front matter.
pub open spec fn entries_of(f: NoteFile) -> Seq<(String, FmValue)> {
    match f.frontmatter {
        Some(fm) => fm.entries@,
        None => Seq::empty(),
    }
}

/// The string elements of the sequence that `f` holds under `key`; none
/// where the value is absent or not a sequence.
pub open spec fn list_values(f: NoteFile, key: Seq<char>) -> Seq<String> {
    match fm_get(entries_of(f), key) {
        Some(FmValue::List(v)) => v@,
        _ => Seq::empty(),
    }
}

/// What file `f` offers: its keys where `key` is `None`, else the list
/// values under `key`.
pub open spec fn file_cands(f: NoteFile, key: Option<Seq<char>>) -> Seq<Seq<char>> {
    match key {
        None => key_names(entries_of(f)),
        Some(k) => texts(list_values(f, k)),
    }
}

/// The texts of `s`, in order.
pub open spec fn texts(s: Seq<String>) -> Seq<Seq<char>> {
    s.map_values(|t: String| t@)
}

/// The keys of front-matter entries `e`, in order.
pub open spec fn key_names(e: Seq<(String, FmValue)>) -> Seq<Seq<char>> {
    e.map_values(|p: (String, FmValue)| p.0@)
}

/// Everything that the files of the vault offer.
pub open spec fn candidates(files: Seq<NoteFile>, key: Option<Seq<char>>) -> Set<Seq<char>> {
    Set::new(
        |x: Seq<char>|
            exists|a: int, b: int|
                0 <= a < files.len() && 0 <= b < file_cands(files[a], key).len() && #[trigger] file_cands(
                    files[a],
                    key,
                )[b] == x,
    )
}

/// The texts that `s` holds.
pub open spec fn views_set(s: Seq<String>) -> Set<Seq<char>> {
    Set::new(|x: Seq<char>| exists|i: int| 0 <= i < s.len() && #[trigger] s[i]@ == x)
}

/// Each text of `s` orders strictly before the ones after it.
pub open spec fn strictly_sorted(s: Seq<String>) -> bool {
    forall|i: int, j: int| 0 <= i < j < s.len() ==> lex_lt(#[trigger] s[i]@, #[trigger] s[j]@)
}

/// The enclosing key of a list item: scanning up from line `k`, the first
/// line whose trimmed text ends with `:` gives it (its colons stripped); a
/// delimiter line `---` met first, or the top of the file, gives none.
pub open spec fn key_above(lines: Seq<String>, k: int) -> Option<Seq<char>>
    decreases k + 1,
{
    if k < 0 || k >= lines.len() {
        None
    } else {
        let t = trim_start(lines[k]@);
        if t.len() > 0 && t.last() == ':' {
            Some(strip_colons(t))
        } else if t == seq!['-', '-', '-'] {
            None
        } else {
            key_above(lines, k - 1)
        }
    }
}

/// A list item line: its trimmed text starts with `- `.
pub open spec fn is_list_item(trimmed: Seq<char>) -> bool {
    trimmed.len() >= 2 && trimmed[0] == '-' && trimmed[1] == ' '
}

pub open spec fn min(a: int, b: int) -> int {
    if a <= b {
        a
    } else {
        b
    }
}

/// Completion at (`line`, `character`) of the file at `path`: the filter
/// prefix and the candidate set, or `None` where the file is not tracked,
/// has no front matter, the line is not strictly inside the block, or a list
/// item has no enclosing key.
pub open spec fn completion_spec(vault: Vault, path: Seq<char>, line: int, character: int) -> Option<
    (Seq<char>, Set<Seq<char>>),
> {
    match find_file(vault.files@, path, 0) {
        None => None,
        Some(fi) => {
            let f = vault.files@[fi];
            match f.frontmatter_range {
                None => None,
                Some(r) => if line <= r.start.line || line >= r.end.line || line >= f.lines@.len() {
                    None
                } else {
                    let text = f.lines@[line]@;
                    let ind = indent(text) as int;
                    let trimmed = trim_start(text);
                    if is_list_item(trimmed) {
                        let start = ind + 2;
                        let prefix = if character >= start {
                            text.subrange(start, min(character, text.len() as int))
                        } else {
                            Seq::empty()
                        };
                        match key_above(f.lines@, line - 1) {
                            None => None,
                            Some(key) => Some((prefix, candidates(vault.files@, Some(key)))),
                        }
                    } else {
                        let n = if character > ind {
                            min(character - ind, trimmed.len() as int)
                        } else {
                            0
                        };
                        Some((trimmed.take(n), candidates(vault.files@, None)))
                    }
                },
            }
        },
    }
}

/// Completion state: the suggestions in ascending order, each once, and
/// the prefix that the client filters them by.
pub struct FrontmatterCompleter {
    pub suggestions: Vec<String>,
    pub prefix: String,
}

fn insert_sorted(v: &mut Vec<String>, s: &str)
    requires
        strictly_sorted(old(v)@),
    ensures
        strictly_sorted(final(v)@),
        views_set(final(v)@) == views_set(old(v)@).insert(s@),
{
    let mut p: usize = 0;
    while p < v.len() && compare_str(v[p].as_str(), s) < 0
        invariant
            p <= v@.len(),
            v@ == old(v)@,
            strictly_sorted(v@),
            forall|k: int| 0 <= k < p ==> lex_lt(#[trigger] v@[k]@, s@),
        decreases v@.len() - p,
    {
        p += 1;
    }
    if p < v.len() {
        let c = compare_str(v[p].as_str(), s);
        if c == 0 {
            assert(views_set(v@) =~= views_set(v@).insert(s@)) by {
                assert(views_set(v@).contains(v@[p as int]@));
            }
            return;
        }
    }
    let ghost before = v@;
    let x = String::from_str(s);
    v.insert(p, x);
    proof {
        let after = v@;
        assert forall|i: int, j: int| 0 <= i < j < after.len() implies lex_lt(
            #[trigger] after[i]@,
            #[trigger] after[j]@,
        ) by {
            if j < p {
                assert(after[i] == before[i] && after[j] == before[j]);
            } else if j == p {
                assert(after[i] == before[i]);
            } else if i == p {
                assert(after[j] == before[j - 1]);
                assert(lex_lt(s@, before[p as int]@));
                if j - 1 > p {
                    assert(lex_lt(before[p as int]@, before[j - 1]@));
                    lemma_lex_lt_transitive(s@, before[p as int]@, before[j - 1]@);
                }
            } else if i < p {
                assert(after[i] == before[i] && after[j] == before[j - 1]);
                assert(lex_lt(before[i]@, before[j - 1]@));
            } else {
                assert(after[i] == before[i - 1] && after[j] == before[j - 1]);
                assert(lex_lt(before[i - 1]@, before[j - 1]@));
            }
        }
        assert forall|y: Seq<char>| views_set(after).contains(y) <==> views_set(before).insert(
            s@,
        ).contains(y) by {
            if views_set(after).contains(y) {
                let i = choose|i: int| 0 <= i < after.len() && #[trigger] after[i]@ == y;
                if i < p {
                    assert(before[i]@ == y);
                } else if i > p {
                    assert(before[i - 1]@ == y);
                }
            }
            if views_set(before).contains(y) {
                let i = choose|i: int| 0 <= i < before.len() && #[trigger] before[i]@ == y;
                if i < p {
                    assert(after[i]@ == y);
                } else {
                    assert(after[i + 1]@ == y);
                }
            }
            if y == s@ {
                assert(after[p as int]@ == y);
            }
        }
        assert(views_set(after) =~= views_set(before).insert(s@));
    }
}

fn fm_lookup<'a>(e: &'a Vec<(String, FmValue)>, key: &str) -> (r: Option<&'a FmValue>)
    ensures
        match r {
            Some(v) => fm_get(e@, key@) == Some(*v),
            None => fm_get(e@, key@) is None,
        },
{
    let mut i: usize = 0;
    assert(e@.subrange(0, e@.len() as int) =~= e@);
    while i < e.len()
        invariant
            i <= e@.len(),
            fm_get(e@, key@) == fm_get(e@.subrange(i as int, e@.len() as int), key@),
        decreases e@.len() - i,
    {
        assert(e@.subrange(i as int, e@.len() as int).drop_first() =~= e@.subrange(
            i + 1,
            e@.len() as int,
        ));
        if str_eq(e[i].0.as_str(), key) {
            return Some(&e[i].1);
        }
        i += 1;
    }
    None
}

fn file_cands_exec(f: &NoteFile, key: &Option<String>) -> (r: Vec<String>)
    ensures
        texts(r@) == file_cands(*f, opt_view(*key)),
{
    let mut out: Vec<String> = Vec::new();
    let ghost want = file_cands(*f, opt_view(*key));
    let fm = match &f.frontmatter {
        Some(fm) => fm,
        None => {
            assert(texts(out@) =~= want);
            return out;
        },
    };
    match key {
        None => {
            let mut j: usize = 0;
            while j < fm.entries.len()
                invariant
                    j <= fm.entries@.len(),
                    out@.len() == j,
                    want == key_names(fm.entries@),
                    texts(out@) == want.subrange(0, j as int),
                decreases fm.entries@.len() - j,
            {
                let ghost before = out@;
                let x = fm.entries[j].0.clone();
                assert(x@ == want[j as int]);
                out.push(x);
                assert(out@ == before.push(x));
                assert(texts(out@) =~= want.subrange(0, j + 1)) by {
                    assert(texts(before) =~= want.subrange(0, j as int));
                    assert(texts(out@)[j as int] == x@);
                }
                j += 1;
            }
            assert(want.subrange(0, j as int) =~= want);
        },
        Some(k) => {
            match fm_lookup(&fm.entries, k.as_str()) {
                Some(FmValue::List(v)) => {
                    let mut j: usize = 0;
                    while j < v.len()
                        invariant
                            j <= v@.len(),
                            out@.len() == j,
                            want == texts(v@),
                            texts(out@) == want.subrange(0, j as int),
                        decreases v@.len() - j,
                    {
                        let ghost before = out@;
                        let x = v[j].clone();
                        assert(x@ == want[j as int]);
                        out.push(x);
                        assert(out@ == before.push(x));
                        assert(texts(out@) =~= want.subrange(0, j + 1)) by {
                            assert(texts(out@)[j as int] == x@);
                            assert(texts(before) =~= want.subrange(
                                0,
                                j as int,
                            ));
                        }
                        j += 1;
                    }
                    assert(want.subrange(0, j as int) =~= want);
                },
                _ => {
                    assert(texts(out@) =~= want);
                },
            }
        },
    }
    out
}

/// What the first `a` files offer, and the first `b` offers of file `a`.
pub open spec fn seen(files: Seq<NoteFile>, key: Option<Seq<char>>, a: int, b: int) -> Set<Seq<char>> {
    Set::new(
        |x: Seq<char>|
            exists|a2: int, b2: int|
                0 <= a2 <= a && a2 < files.len() && 0 <= b2 < file_cands(files[a2], key).len() && (
                a2 < a || b2 < b) && #[trigger] file_cands(files[a2], key)[b2] == x,
    )
}

/// Every candidate of the vault once, in ascending order.
fn collect_candidates(files: &Vec<NoteFile>, key: &Option<String>) -> (out: Vec<String>)
    ensures
        strictly_sorted(out@),
        views_set(out@) == candidates(files@, opt_view(*key)),
{
    let ghost k = opt_view(*key);
    let mut out: Vec<String> = Vec::new();
    let mut a: usize = 0;
    assert(views_set(out@) =~= seen(files@, k, 0, 0));
    while a < files.len()
        invariant
            a <= files@.len(),
            k == opt_view(*key),
            strictly_sorted(out@),
            views_set(out@) == seen(files@, k, a as int, 0),
        decreases files@.len() - a,
    {
        let items = file_cands_exec(&files[a], key);
        let ghost fc = file_cands(files@[a as int], k);
        assert(items@.len() == fc.len()) by {
            assert(texts(items@).len() == items@.len());
        }
        let mut b: usize = 0;
        assert(seen(files@, k, a as int, 0) =~= seen(files@, k, a as int, b as int));
        while b < items.len()
            invariant
                a < files@.len(),
                b <= items@.len(),
                items@.len() == fc.len(),
                fc == file_cands(files@[a as int], k),
                texts(items@) == fc,
                strictly_sorted(out@),
                views_set(out@) == seen(files@, k, a as int, b as int),
            decreases items@.len() - b,
        {
            assert(items@[b as int]@ == fc[b as int]) by {
                assert(texts(items@)[b as int] == items@[b as int]@);
            }
            insert_sorted(&mut out, items[b].as_str());
            assert(seen(files@, k, a as int, b + 1) =~= seen(files@, k, a as int, b as int).insert(
                fc[b as int],
            )) by {
                assert(fc[b as int] == file_cands(files@[a as int], k)[b as int]);
            }
            b += 1;
        }
        assert(seen(files@, k, a as int, b as int) =~= seen(files@, k, a + 1, 0));
        a += 1;
    }
    assert(seen(files@, k, a as int, 0) =~= candidates(files@, k));
    out
}

/// The enclosing key of the list item on line `line`, scanning the lines
/// above it.
fn enclosing_key(lines: &Vec<String>, line: usize) -> (r: Option<String>)
    requires
        line <= lines@.len(),
    ensures
        opt_view(r) == key_above(lines@, line - 1),
{
    let mut k = line;
    while k > 0
        invariant
            k <= line,
            line <= lines@.len(),
            key_above(lines@, line - 1) == key_above(lines@, k - 1),
        decreases k,
    {
        let text = lines[k - 1].as_str();
        let ind = indent_of(text);
        let len = text.unicode_len();
        let trimmed = text.substring_char(ind, len);
        assert(trimmed@ =~= trim_start(text@));
        let tl = len - ind;
        if tl > 0 && trimmed.get_char(tl - 1) == ':' {
            return Some(strip_colons_exec(trimmed));
        }
        proof {
            reveal_strlit("---");
        }
        assert("---"@ =~= seq!['-', '-', '-']);
        if str_eq(trimmed, "---") {
            return None;
        }
        k -= 1;
    }
    None
}

impl FrontmatterCompleter {
    /// Completion at (`line`, `character`) of the file at `path`. Inside the
    /// front-matter block, on a list item (`- `) it offers every string that
    /// some file lists under the enclosing key; on any other line, every
    /// front-matter key of the vault. Each candidate comes once, in ascending
    /// order. `None` where the file is not tracked, has no front matter, the
    /// line is not strictly between the delimiters, or a list item has no
    /// enclosing key.
    pub fn construct(vault: &Vault, path: &str, line: usize, character: usize) -> (r: Option<
        FrontmatterCompleter,
    >)
        ensures
            match completion_spec(*vault, path@, line as int, character as int) {
                None => r is None,
                Some(res) => r matches Some(c) && c.prefix@ == res.0 && strictly_sorted(
                    c.suggestions@,
                ) && views_set(c.suggestions@) == res.1,
            },
    {
        let fi = match vault.file_index(path) {
            Some(i) => i,
            None => return None,
        };
        let f = &vault.files[fi];
        let range = match &f.frontmatter_range {
            Some(r) => r,
            None => return None,
        };
        if line <= range.start.line as usize || line >= range.end.line as usize || line
            >= f.lines.len() {
            return None;
        }
        let text = f.lines[line].as_str();
        let len = text.unicode_len();
        let ind = indent_of(text);
        let trimmed = text.substring_char(ind, len);
        assert(trimmed@ =~= trim_start(text@));
        let tl = len - ind;
        if tl >= 2 && trimmed.get_char(0) == '-' && trimmed.get_char(1) == ' ' {
            let start = ind + 2;
            let prefix = if character >= start {
                let end = if character < len {
                    character
                } else {
                    len
                };
                String::from_str(text.substring_char(start, end))
            } else {
                String::new()
            };
            let key = match enclosing_key(&f.lines, line) {
                Some(k) => k,
                None => return None,
            };
            let suggestions = collect_candidates(&vault.files, &Some(key));
            Some(FrontmatterCompleter { suggestions, prefix })
        } else {
            let n = if character > ind {
                let d = character - ind;
                if d < tl {
                    d
                } else {
                    tl
                }
            } else {
                0
            };
            let prefix = String::from_str(trimmed.substring_char(0, n));
            assert(prefix@ =~= trim_start(text@).take(n as int));
            let suggestions = collect_candidates(&vault.files, &None);
            Some(FrontmatterCompleter { suggestions, prefix })
        }
    }

    /// The suggestions, in ascending order.
    pub fn completions(&self) -> (r: Vec<String>)
        ensures
            r@ == self.suggestions@,
    {
        let mut r: Vec<String> = Vec::new();
        let mut i: usize = 0;
        while i < self.suggestions.len()
            invariant
                i <= self.suggestions@.len(),
                r@ == self.suggestions@.subrange(0, i as int),
            decreases self.suggestions@.len() - i,
        {
            r.push(self.suggestions[i].clone());
            assert(r@ =~= self.suggestions@.subrange(0, i + 1));
            i += 1;
        }
        assert(r@ =~= self.suggestions@);
        r
    }

    /// The prefix that the client filters the suggestions by.
    pub fn completion_filter_text(&self) -> (r: String)
        ensures
            r@ == self.prefix@,
    {
        self.prefix.clone()
    }
}

} // verus!
