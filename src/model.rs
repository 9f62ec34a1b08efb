//! Plain-value snapshot of a vault: positions, references, referenceables,
//! front matter and the per-file records that the engines query.
use vstd::prelude::*;

verus! {

/// A zero-based (line, character) location in a file's text.
#[derive(Clone, Copy, Debug, PartialEq, Eq, Structural)]
pub struct Position {
    pub line: u32,
    pub character: u32,
}

/// An end-exclusive span of text inside one file.
#[derive(Clone, Copy, Debug, PartialEq, Eq, Structural)]
pub struct Range {
    pub start: Position,
    pub end: Position,
}

/// `a` comes strictly before `b` in reading order.
pub open spec fn pos_lt(a: Position, b: Position) -> bool {
    a.line < b.line || (a.line == b.line && a.character < b.character)
}

/// `p` lies inside `r` (start inclusive, end exclusive).
pub open spec fn range_contains(r: Range, p: Position) -> bool {
    !pos_lt(p, r.start) && pos_lt(p, r.end)
}

/// Two ranges share at least one character.
pub open spec fn ranges_overlap(a: Range, b: Range) -> bool {
    pos_lt(a.start, b.end) && pos_lt(b.start, a.end)
}

pub fn position_before(a: Position, b: Position) -> (r: bool)
    ensures
        r == pos_lt(a, b),
{
    a.line < b.line || (a.line == b.line && a.character < b.character)
}

pub fn range_contains_position(r: Range, p: Position) -> (b: bool)
    ensures
        b == range_contains(r, p),
{
    !position_before(p, r.start) && position_before(p, r.end)
}

/// What every reference carries: the span to rewrite, the optional alias
/// written after `|`, and the raw matched text.
#[derive(Debug)]
pub struct RefData {
    pub range: Range,
    pub display_text: Option<String>,
    pub reference_text: String,
}

/// One occurrence of a link or tag in some file's text. The two strings of
/// the fragment-bearing variants are the target file and the fragment (a
/// heading name or a block id).
#[derive(Debug)]
pub enum Reference {
    WikiFileLink(RefData),
    WikiHeadingLink(RefData, String, String),
    WikiIndexedBlockLink(RefData, String, String),
    MDFileLink(RefData),
    MDHeadingLink(RefData, String, String),
    MDIndexedBlockLink(RefData, String, String),
    Tag(RefData),
    Footnote(RefData),
    LinkRef(RefData),
}

impl Reference {
    pub open spec fn data(self) -> RefData {
        match self {
            Reference::WikiFileLink(d) => d,
            Reference::WikiHeadingLink(d, _, _) => d,
            Reference::WikiIndexedBlockLink(d, _, _) => d,
            Reference::MDFileLink(d) => d,
            Reference::MDHeadingLink(d, _, _) => d,
            Reference::MDIndexedBlockLink(d, _, _) => d,
            Reference::Tag(d) => d,
            Reference::Footnote(d) => d,
            Reference::LinkRef(d) => d,
        }
    }

    pub fn range(&self) -> (r: Range)
        ensures
            r == self.data().range,
    {
        match self {
            Reference::WikiFileLink(d) => d.range,
            Reference::WikiHeadingLink(d, _, _) => d.range,
            Reference::WikiIndexedBlockLink(d, _, _) => d.range,
            Reference::MDFileLink(d) => d.range,
            Reference::MDHeadingLink(d, _, _) => d.range,
            Reference::MDIndexedBlockLink(d, _, _) => d.range,
            Reference::Tag(d) => d.range,
            Reference::Footnote(d) => d.range,
            Reference::LinkRef(d) => d.range,
        }
    }
}

/// A heading line: its text, its nesting level (count of leading `#`) and
/// the range of the whole line.
#[derive(Debug)]
pub struct Heading {
    pub text: String,
    pub level: usize,
    pub range: Range,
}

/// Something that references point at. The first string of each variant is
/// the path of the file that holds it.
#[derive(Debug)]
pub enum Referenceable {
    File(String),
    Heading(String, Heading),
    Tag(String, String),
    IndexedBlock(String, String),
    Footnote(String, String),
    LinkRefTarget(String, String),
}

impl Referenceable {
    pub open spec fn path(self) -> Seq<char> {
        match self {
            Referenceable::File(p) => p@,
            Referenceable::Heading(p, _) => p@,
            Referenceable::Tag(p, _) => p@,
            Referenceable::IndexedBlock(p, _) => p@,
            Referenceable::Footnote(p, _) => p@,
            Referenceable::LinkRefTarget(p, _) => p@,
        }
    }

    /// The sub-locator inside the file; empty for a whole file.
    pub open spec fn locator(self) -> Seq<char> {
        match self {
            Referenceable::File(_) => Seq::empty(),
            Referenceable::Heading(_, h) => h.text@,
            Referenceable::Tag(_, t) => t@,
            Referenceable::IndexedBlock(_, b) => b@,
            Referenceable::Footnote(_, f) => f@,
            Referenceable::LinkRefTarget(_, l) => l@,
        }
    }

    pub open spec fn kind(self) -> int {
        match self {
            Referenceable::File(_) => 0,
            Referenceable::Heading(_, _) => 1,
            Referenceable::Tag(_, _) => 2,
            Referenceable::IndexedBlock(_, _) => 3,
            Referenceable::Footnote(_, _) => 4,
            Referenceable::LinkRefTarget(_, _) => 5,
        }
    }

    /// Two referenceables name the same rename subject.
    pub open spec fn same_subject(self, other: Referenceable) -> bool {
        self.kind() == other.kind() && self.path() == other.path() && self.locator()
            == other.locator()
    }

    fn path_str(&self) -> (p: &String)
        ensures
            p@ == self.path(),
    {
        match self {
            Referenceable::File(p) => p,
            Referenceable::Heading(p, _) => p,
            Referenceable::Tag(p, _) => p,
            Referenceable::IndexedBlock(p, _) => p,
            Referenceable::Footnote(p, _) => p,
            Referenceable::LinkRefTarget(p, _) => p,
        }
    }

    fn kind_code(&self) -> (k: u8)
        ensures
            k as int == self.kind(),
    {
        match self {
            Referenceable::File(_) => 0,
            Referenceable::Heading(_, _) => 1,
            Referenceable::Tag(_, _) => 2,
            Referenceable::IndexedBlock(_, _) => 3,
            Referenceable::Footnote(_, _) => 4,
            Referenceable::LinkRefTarget(_, _) => 5,
        }
    }

    fn locator_eq(&self, other: &Referenceable) -> (b: bool)
        ensures
            b == (self.locator() == other.locator()),
    {
        let a: &str = match self {
            Referenceable::File(_) => "",
            Referenceable::Heading(_, h) => h.text.as_str(),
            Referenceable::Tag(_, t) => t.as_str(),
            Referenceable::IndexedBlock(_, b) => b.as_str(),
            Referenceable::Footnote(_, f) => f.as_str(),
            Referenceable::LinkRefTarget(_, l) => l.as_str(),
        };
        let b: &str = match other {
            Referenceable::File(_) => "",
            Referenceable::Heading(_, h) => h.text.as_str(),
            Referenceable::Tag(_, t) => t.as_str(),
            Referenceable::IndexedBlock(_, b) => b.as_str(),
            Referenceable::Footnote(_, f) => f.as_str(),
            Referenceable::LinkRefTarget(_, l) => l.as_str(),
        };
        proof {
            reveal_strlit("");
        }
        assert(a@ == self.locator());
        assert(b@ == other.locator());
        crate::text::str_eq(a, b)
    }

    pub fn is_same_subject(&self, other: &Referenceable) -> (b: bool)
        ensures
            b == self.same_subject(*other),
    {
        self.kind_code() == other.kind_code() && crate::text::str_eq(
            self.path_str().as_str(),
            other.path_str().as_str(),
        ) && self.locator_eq(other)
    }
}

/// A reference together with the path of the file it occurs in.
#[derive(Debug)]
pub struct Located {
    pub path: String,
    pub reference: Reference,
}

/// A span of some file on which the cursor resolves to `target`: a heading
/// line, a link (resolving to what it links to) or a tag.
#[derive(Debug)]
pub struct Anchor {
    pub path: String,
    pub range: Range,
    pub target: Referenceable,
}

/// Every reference, vault-wide, to one referenceable.
#[derive(Debug)]
pub struct Incoming {
    pub target: Referenceable,
    pub references: Vec<Located>,
}

/// A front-matter value as the engines read it: a string, a sequence (of
/// its string elements), or anything else.
#[derive(Debug)]
pub enum FmValue {
    Text(String),
    List(Vec<String>),
    Other,
}

/// The string-keyed top-level entries of a file's front matter.
#[derive(Debug)]
pub struct FrontMatter {
    pub entries: Vec<(String, FmValue)>,
}

/// One tracked note: its path, its lines, its parsed front matter and the
/// lines of the front matter's opening and closing delimiters.
#[derive(Debug)]
pub struct NoteFile {
    pub path: String,
    pub lines: Vec<String>,
    pub frontmatter: Option<FrontMatter>,
    pub frontmatter_range: Option<Range>,
}

/// A consistent snapshot of the vault's indices.
#[derive(Debug)]
pub struct Vault {
    pub files: Vec<NoteFile>,
    pub anchors: Vec<Anchor>,
    pub index: Vec<Incoming>,
}

/// The first anchor of `anchors` in file `path` whose range holds `pos`.
pub open spec fn resolve(anchors: Seq<Anchor>, path: Seq<char>, pos: Position) -> Option<
    Referenceable,
>
    decreases anchors.len(),
{
    if anchors.len() == 0 {
        None
    } else if anchors[0].path@ == path && range_contains(anchors[0].range, pos) {
        Some(anchors[0].target)
    } else {
        resolve(anchors.drop_first(), path, pos)
    }
}

/// The references recorded for the first index entry that names the same
/// subject as `t`; `None` where the index has no entry for it.
pub open spec fn lookup(index: Seq<Incoming>, t: Referenceable) -> Option<Seq<Located>>
    decreases index.len(),
{
    if index.len() == 0 {
        None
    } else if index[0].target.same_subject(t) {
        Some(index[0].references@)
    } else {
        lookup(index.drop_first(), t)
    }
}

/// No two references of one file cover a common span.
pub open spec fn refs_disjoint(refs: Seq<Located>) -> bool {
    forall|i: int, j: int|
        0 <= i < refs.len() && 0 <= j < refs.len() && i != j && refs[i].path@ == refs[j].path@
            ==> !ranges_overlap(refs[i].reference.data().range, refs[j].reference.data().range)
}

/// Whether no two references of one file in `refs` cover a common span;
/// fixtures and index snapshots that fail this are not well formed.
pub fn references_disjoint(refs: &Vec<Located>) -> (r: bool)
    ensures
        r == refs_disjoint(refs@),
{
    let n = refs.len();
    let mut i: usize = 0;
    while i < n
        invariant
            n == refs@.len(),
            i <= n,
            forall|a: int, b: int|
                0 <= a < i && 0 <= b < n && a != b && refs@[a].path@ == refs@[b].path@ ==> !ranges_overlap(
                    refs@[a].reference.data().range,
                    refs@[b].reference.data().range,
                ),
        decreases n - i,
    {
        let mut j: usize = 0;
        while j < n
            invariant
                n == refs@.len(),
                i < n,
                j <= n,
                forall|a: int, b: int|
                    0 <= a < i && 0 <= b < n && a != b && refs@[a].path@ == refs@[b].path@ ==> !ranges_overlap(
                        refs@[a].reference.data().range,
                        refs@[b].reference.data().range,
                    ),
                forall|b: int|
                    0 <= b < j && i != b && refs@[i as int].path@ == refs@[b].path@ ==> !ranges_overlap(
                        refs@[i as int].reference.data().range,
                        refs@[b].reference.data().range,
                    ),
            decreases n - j,
        {
            if i != j && crate::text::str_eq(refs[i].path.as_str(), refs[j].path.as_str()) {
                let x = refs[i].reference.range();
                let y = refs[j].reference.range();
                if position_before(x.start, y.end) && position_before(y.start, x.end) {
                    assert(ranges_overlap(
                        refs@[i as int].reference.data().range,
                        refs@[j as int].reference.data().range,
                    ));
                    assert(!refs_disjoint(refs@));
                    return false;
                }
            }
            j += 1;
        }
        i += 1;
    }
    true
}

/// The first index at or after `k` of a file whose path is `p`.
pub open spec fn find_file(files: Seq<NoteFile>, p: Seq<char>, k: int) -> Option<int>
    decreases files.len() - k,
{
    if k < 0 || k >= files.len() {
        None
    } else if files[k].path@ == p {
        Some(k)
    } else {
        find_file(files, p, k + 1)
    }
}

impl Vault {
    /// Where the record of the file at `path` stands in `files`.
    pub fn file_index(&self, path: &str) -> (r: Option<usize>)
        ensures
            match r {
                Some(i) => find_file(self.files@, path@, 0) == Some(i as int) && i < self.files@.len(),
                None => find_file(self.files@, path@, 0) is None,
            },
    {
        let mut i: usize = 0;
        while i < self.files.len()
            invariant
                i <= self.files@.len(),
                find_file(self.files@, path@, 0) == find_file(self.files@, path@, i as int),
            decreases self.files@.len() - i,
        {
            if crate::text::str_eq(self.files[i].path.as_str(), path) {
                return Some(i);
            }
            i += 1;
        }
        None
    }

    /// Every index entry keeps the references of each file apart.
    pub open spec fn wf(&self) -> bool {
        forall|k: int| 0 <= k < self.index@.len() ==> refs_disjoint(#[trigger] self.index@[k].references@)
    }

    /// The referenceable that the cursor at `pos` in `path` sits on.
    pub fn resolve_at(&self, path: &str, pos: Position) -> (r: Option<&Referenceable>)
        ensures
            match r {
                Some(t) => resolve(self.anchors@, path@, pos) == Some(*t),
                None => resolve(self.anchors@, path@, pos) is None,
            },
    {
        let mut i: usize = 0;
        assert(self.anchors@.subrange(0, self.anchors@.len() as int) =~= self.anchors@);
        while i < self.anchors.len()
            invariant
                i <= self.anchors@.len(),
                resolve(self.anchors@, path@, pos) == resolve(
                    self.anchors@.subrange(i as int, self.anchors@.len() as int),
                    path@,
                    pos,
                ),
            decreases self.anchors@.len() - i,
        {
            let a = &self.anchors[i];
            let ghost rest = self.anchors@.subrange(i as int, self.anchors@.len() as int);
            assert(rest.drop_first() =~= self.anchors@.subrange(
                i + 1,
                self.anchors@.len() as int,
            ));
            if crate::text::str_eq(a.path.as_str(), path) && range_contains_position(a.range, pos) {
                return Some(&a.target);
            }
            i += 1;
        }
        None
    }

    /// All references to `t`, or `None` where the index holds no entry for it.
    pub fn references_to(&self, t: &Referenceable) -> (r: Option<&Vec<Located>>)
        ensures
            match r {
                Some(v) => lookup(self.index@, *t) == Some(v@),
                None => lookup(self.index@, *t) is None,
            },
    {
        let mut i: usize = 0;
        assert(self.index@.subrange(0, self.index@.len() as int) =~= self.index@);
        while i < self.index.len()
            invariant
                i <= self.index@.len(),
                lookup(self.index@, *t) == lookup(
                    self.index@.subrange(i as int, self.index@.len() as int),
                    *t,
                ),
            decreases self.index@.len() - i,
        {
            let e = &self.index[i];
            let ghost rest = self.index@.subrange(i as int, self.index@.len() as int);
            assert(rest.drop_first() =~= self.index@.subrange(i + 1, self.index@.len() as int));
            if e.target.is_same_subject(t) {
                return Some(&e.references);
            }
            i += 1;
        }
        None
    }
}

} // verus!
