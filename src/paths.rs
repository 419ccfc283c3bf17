//! Qualified-name patterns with single-segment wildcards, sets of them, and
//! the catalog of lifetime-bypass functions.
use vstd::prelude::*;

use crate::program::{Name, Program};

verus! {

/// The text that separates two segments of a path.
pub open spec fn separator() -> Seq<char> {
    seq![':', ':']
}

/// The segments of a path, joined by `::`.
pub open spec fn join_path(segs: Seq<Seq<char>>) -> Seq<char>
    decreases segs.len(),
{
    if segs.len() == 0 {
        Seq::empty()
    } else if segs.len() == 1 {
        segs[0]
    } else {
        join_path(segs.drop_last()) + separator() + segs.last()
    }
}

/// Why a path string is not a pattern.
#[derive(Clone, Copy, Debug, PartialEq, Eq, Structural)]
pub enum PatternError {
    /// The string is empty.
    Empty,
    /// A `>` closes no `<`, or a `<` is never closed.
    Unbalanced,
}

/// Splits `s` from position `i` on, at the `::` that stand outside angle
/// brackets. `depth` is the bracket depth at `i`, `start` where the current
/// segment began, `acc` the segments already closed. `None` when the brackets
/// do not balance.
pub open spec fn split_segments(
    s: Seq<char>,
    i: int,
    depth: int,
    start: int,
    acc: Seq<Seq<char>>,
) -> Option<Seq<Seq<char>>>
    decreases s.len() - i,
{
    if i >= s.len() {
        if depth == 0 {
            Some(acc.push(s.subrange(start, s.len() as int)))
        } else {
            None
        }
    } else if s[i] == '<' {
        split_segments(s, i + 1, depth + 1, start, acc)
    } else if s[i] == '>' {
        if depth <= 0 {
            None
        } else {
            split_segments(s, i + 1, depth - 1, start, acc)
        }
    } else if s[i] == ':' && i + 1 < s.len() && s[i + 1] == ':' && depth == 0 {
        split_segments(s, i + 2, 0, i + 2, acc.push(s.subrange(start, i)))
    } else {
        split_segments(s, i + 1, depth, start, acc)
    }
}

/// A segment `_` or `<_>` matches any one segment; `None` stands for it.
pub open spec fn segment_elem(seg: Seq<char>) -> Option<Seq<char>> {
    if seg == seq!['_'] || seg == seq!['<', '_', '>'] {
        None
    } else {
        Some(seg)
    }
}

/// The pattern that a path string denotes.
pub open spec fn spec_parse(s: Seq<char>) -> Result<Seq<Option<Seq<char>>>, PatternError> {
    if s.len() == 0 {
        Err(PatternError::Empty)
    } else {
        match split_segments(s, 0, 0, 0, Seq::empty()) {
            Some(segs) => Ok(segs.map_values(|seg: Seq<char>| segment_elem(seg))),
            None => Err(PatternError::Unbalanced),
        }
    }
}

/// A name matches a pattern of as many segments when each segment of the
/// pattern is a wildcard or equals the name's segment at that position.
pub open spec fn spec_matches(pat: Seq<Option<Seq<char>>>, name: Seq<Seq<char>>) -> bool {
    &&& pat.len() == name.len()
    &&& forall|i: int|
        0 <= i < pat.len() ==> (#[trigger] pat[i] is None || pat[i] == Some(name[i]))
}

/// `a::b::<_>::c` parses to four segments whose third is a wildcard: it
/// matches `a`, `b`, any segment, `c`, and no name of another length or with
/// another first, second or fourth segment.
pub proof fn lemma_wildcard_pattern(x: Seq<char>, name: Seq<Seq<char>>)
    ensures
        spec_parse("a::b::<_>::c"@) == Ok::<_, PatternError>(
            seq![Some("a"@), Some("b"@), None, Some("c"@)],
        ),
        spec_matches(seq![Some("a"@), Some("b"@), None, Some("c"@)], seq!["a"@, "b"@, x, "c"@]),
        name.len() != 4 ==> !spec_matches(seq![Some("a"@), Some("b"@), None, Some("c"@)], name),
        name.len() == 4 && (name[0] != "a"@ || name[1] != "b"@ || name[3] != "c"@)
            ==> !spec_matches(seq![Some("a"@), Some("b"@), None, Some("c"@)], name),
{
    reveal_strlit("a::b::<_>::c");
    reveal_strlit("a");
    reveal_strlit("b");
    reveal_strlit("c");
    let s = "a::b::<_>::c"@;
    assert(s =~= seq!['a', ':', ':', 'b', ':', ':', '<', '_', '>', ':', ':', 'c']);
    let e = Seq::<Seq<char>>::empty();
    let a = seq!['a'];
    let b = seq!['b'];
    let w = seq!['<', '_', '>'];
    let c = seq!['c'];
    assert(s.subrange(0, 1) =~= a);
    assert(s.subrange(3, 4) =~= b);
    assert(s.subrange(6, 9) =~= w);
    assert(s.subrange(11, 12) =~= c);
    assert(split_segments(s, 12, 0, 11, seq![a, b, w]) == Some(seq![a, b, w, c]));
    assert(split_segments(s, 11, 0, 11, seq![a, b, w]) == Some(seq![a, b, w, c]));
    assert(seq![a, b].push(s.subrange(6, 9)) =~= seq![a, b, w]);
    assert(split_segments(s, 9, 0, 6, seq![a, b]) == Some(seq![a, b, w, c]));
    assert(split_segments(s, 8, 1, 6, seq![a, b]) == Some(seq![a, b, w, c]));
    assert(split_segments(s, 7, 1, 6, seq![a, b]) == Some(seq![a, b, w, c]));
    assert(split_segments(s, 6, 0, 6, seq![a, b]) == Some(seq![a, b, w, c]));
    assert(seq![a].push(s.subrange(3, 4)) =~= seq![a, b]);
    assert(split_segments(s, 4, 0, 3, seq![a]) == Some(seq![a, b, w, c]));
    assert(split_segments(s, 3, 0, 3, seq![a]) == Some(seq![a, b, w, c]));
    assert(e.push(s.subrange(0, 1)) =~= seq![a]);
    assert(split_segments(s, 1, 0, 0, e) == Some(seq![a, b, w, c]));
    assert(split_segments(s, 0, 0, 0, e) == Some(seq![a, b, w, c]));
    assert(seq![a, b, w, c].map_values(|seg: Seq<char>| segment_elem(seg)) =~= seq![
        Some(a),
        Some(b),
        None,
        Some(c),
    ]) by {
        let u = seq!['_'];
        let v = seq!['<', '_', '>'];
        assert(u[0] == '_' && u.len() == 1 && v.len() == 3);
        assert(a[0] == 'a' && b[0] == 'b' && c[0] == 'c');
        assert(a != u && a != v);
        assert(b != u && b != v);
        assert(c != u && c != v);
        assert(w =~= v);
        assert(segment_elem(a) == Some(a));
        assert(segment_elem(b) == Some(b));
        assert(segment_elem(w) == None::<Seq<char>>);
        assert(segment_elem(c) == Some(c));
    }
    assert("a"@ =~= a);
    assert("b"@ =~= b);
    assert("c"@ =~= c);
    let pat = seq![Some("a"@), Some("b"@), None, Some("c"@)];
    let good = seq!["a"@, "b"@, x, "c"@];
    assert forall|i: int| 0 <= i < pat.len() implies (#[trigger] pat[i] is None || pat[i] == Some(
        good[i],
    )) by {}
    if name.len() == 4 && (name[0] != "a"@ || name[1] != "b"@ || name[3] != "c"@) {
        if name[0] != "a"@ {
            assert(!(pat[0] is None || pat[0] == Some(name[0])));
        } else if name[1] != "b"@ {
            assert(!(pat[1] is None || pat[1] == Some(name[1])));
        } else {
            assert(!(pat[3] is None || pat[3] == Some(name[3])));
        }
    }
}

/// One segment of a pattern.
#[derive(Clone, Debug)]
pub enum PatternElem {
    Wildcard,
    Exact(String),
}

impl View for PatternElem {
    type V = Option<Seq<char>>;

    open spec fn view(&self) -> Option<Seq<char>> {
        match self {
            PatternElem::Wildcard => None,
            PatternElem::Exact(s) => Some(s@),
        }
    }
}

/// A parsed path pattern.
#[derive(Clone, Debug)]
pub struct Pattern {
    pub elems: Vec<PatternElem>,
}

impl View for Pattern {
    type V = Seq<Option<Seq<char>>>;

    open spec fn view(&self) -> Seq<Option<Seq<char>>> {
        self.elems@.map_values(|e: PatternElem| e@)
    }
}

/// Whether `s[start..end]` is a wildcard segment.
fn is_wildcard(s: &str, start: usize, end: usize) -> (r: bool)
    requires
        start <= end <= s@.len(),
    ensures
        r == (s@.subrange(start as int, end as int) == seq!['_'] || s@.subrange(
            start as int,
            end as int,
        ) == seq!['<', '_', '>']),
{
    let ghost seg = s@.subrange(start as int, end as int);
    assert(seq!['_'].len() == 1 && seq!['<', '_', '>'].len() == 3);
    if end - start == 1 {
        let c = s.get_char(start);
        proof {
            assert(seg[0] == c);
            if c == '_' {
                assert(seg =~= seq!['_']);
            }
            if seg == seq!['_'] {
                assert(seq!['_'][0] == '_');
            }
        }
        c == '_'
    } else if end - start == 3 {
        let a = s.get_char(start);
        let b = s.get_char(start + 1);
        let c = s.get_char(start + 2);
        proof {
            if a == '<' && b == '_' && c == '>' {
                assert(seg =~= seq!['<', '_', '>']);
            }
            if seg == seq!['<', '_', '>'] {
                assert(seg[0] == a && seg[1] == b && seg[2] == c);
                assert(seq!['<', '_', '>'][0] == '<' && seq!['<', '_', '>'][1] == '_'
                    && seq!['<', '_', '>'][2] == '>');
            }
        }
        a == '<' && b == '_' && c == '>'
    } else {
        false
    }
}

impl Pattern {
    /// Parses a path string: segments separated by `::` outside angle
    /// brackets, `_` and `<_>` being wildcards.
    pub fn parse(s: &str) -> (r: Result<Pattern, PatternError>)
        ensures
            match r {
                Ok(p) => spec_parse(s@) == Ok::<_, PatternError>(p@),
                Err(e) => spec_parse(s@) == Err::<Seq<Option<Seq<char>>>, _>(e),
            },
    {
        let n = s.unicode_len();
        if n == 0 {
            return Err(PatternError::Empty);
        }
        let ghost whole = split_segments(s@, 0int, 0int, 0int, Seq::<Seq<char>>::empty());
        let mut elems: Vec<PatternElem> = Vec::new();
        let ghost mut acc: Seq<Seq<char>> = Seq::empty();
        let mut i: usize = 0;
        let mut depth: usize = 0;
        let mut start: usize = 0;
        while i < n
            invariant
                n == s@.len(),
                n > 0,
                whole == split_segments(s@, 0int, 0int, 0int, Seq::<Seq<char>>::empty()),
                start <= i <= n,
                depth <= i,
                split_segments(s@, i as int, depth as int, start as int, acc) == whole,
                elems@.len() == acc.len(),
                forall|k: int|
                    0 <= k < acc.len() ==> #[trigger] elems@[k]@ == segment_elem(acc[k]),
            decreases n - i,
        {
            let c = s.get_char(i);
            if c == '<' {
                depth = depth + 1;
                i = i + 1;
            } else if c == '>' {
                if depth == 0 {
                    assert(whole is None);
                    return Err(PatternError::Unbalanced);
                }
                depth = depth - 1;
                i = i + 1;
            } else if c == ':' && i + 1 < n && depth == 0 && s.get_char(i + 1) == ':' {
                let elem = if is_wildcard(s, start, i) {
                    PatternElem::Wildcard
                } else {
                    PatternElem::Exact(s.substring_char(start, i).to_owned())
                };
                elems.push(elem);
                proof {
                    acc = acc.push(s@.subrange(start as int, i as int));
                }
                i = i + 2;
                start = i;
            } else {
                i = i + 1;
            }
        }
        if depth != 0 {
            return Err(PatternError::Unbalanced);
        }
        let elem = if is_wildcard(s, start, n) {
            PatternElem::Wildcard
        } else {
            PatternElem::Exact(s.substring_char(start, n).to_owned())
        };
        elems.push(elem);
        proof {
            acc = acc.push(s@.subrange(start as int, n as int));
        }
        let p = Pattern { elems };
        assert(p@ =~= acc.map_values(|seg: Seq<char>| segment_elem(seg)));
        Ok(p)
    }

    /// Whether `name` matches this pattern.
    pub fn matches(&self, _program: &Program, name: &Name) -> (r: bool)
        ensures
            r == spec_matches(self@, name@),
    {
        self.matches_name(name)
    }

    fn matches_name(&self, name: &Name) -> (r: bool)
        ensures
            r == spec_matches(self@, name@),
    {
        if self.elems.len() != name.elems.len() {
            return false;
        }
        let mut i: usize = 0;
        while i < self.elems.len()
            invariant
                self.elems@.len() == name.elems@.len(),
                i <= self.elems@.len(),
                forall|k: int|
                    0 <= k < i ==> (#[trigger] self@[k] is None || self@[k] == Some(name@[k])),
            decreases self.elems@.len() - i,
        {
            match &self.elems[i] {
                PatternElem::Wildcard => {},
                PatternElem::Exact(e) => {
                    if !e.eq(&name.elems[i]) {
                        assert(self@[i as int] == Some(e@));
                        assert(name@[i as int] == name.elems@[i as int]@);
                        return false;
                    }
                },
            }
            i = i + 1;
        }
        true
    }
}

/// The `(canonical string, pattern)` entry that a path gives, when it parses.
pub open spec fn path_entry(path: Seq<Seq<char>>) -> (Seq<char>, Seq<Option<Seq<char>>>) {
    (join_path(path), spec_parse(join_path(path))->Ok_0)
}

pub open spec fn path_parses(path: Seq<Seq<char>>) -> bool {
    spec_parse(join_path(path)) is Ok
}

/// The segments of each path of a list of paths.
pub open spec fn paths_view(paths: Seq<&[&str]>) -> Seq<Seq<Seq<char>>> {
    paths.map_values(|p: &[&str]| p@.map_values(|s: &str| s@))
}

/// A named collection of patterns, each with its canonical string, in
/// catalog order.
#[derive(Clone, Debug)]
pub struct PathSet {
    set: Vec<(String, Pattern)>,
}

impl View for PathSet {
    type V = Seq<(Seq<char>, Seq<Option<Seq<char>>>)>;

    closed spec fn view(&self) -> Seq<(Seq<char>, Seq<Option<Seq<char>>>)> {
        self.set@.map_values(|e: (String, Pattern)| (e.0@, e.1@))
    }
}

/// The position of the first pattern of `set` that `name` matches.
pub open spec fn first_match(
    set: Seq<(Seq<char>, Seq<Option<Seq<char>>>)>,
    name: Seq<Seq<char>>,
) -> Option<int>
    decreases set.len(),
{
    if set.len() == 0 {
        None
    } else {
        match first_match(set.drop_last(), name) {
            Some(i) => Some(i),
            None => if spec_matches(set.last().1, name) {
                Some(set.len() - 1)
            } else {
                None
            },
        }
    }
}

/// `first_match` gives the least position whose pattern matches.
pub proof fn lemma_first_match(set: Seq<(Seq<char>, Seq<Option<Seq<char>>>)>, name: Seq<Seq<char>>)
    ensures
        match first_match(set, name) {
            Some(i) => 0 <= i < set.len() && spec_matches(set[i].1, name) && forall|j: int|
                0 <= j < i ==> !spec_matches(#[trigger] set[j].1, name),
            None => forall|j: int| 0 <= j < set.len() ==> !spec_matches(#[trigger] set[j].1, name),
        },
    decreases set.len(),
{
    if set.len() > 0 {
        lemma_first_match(set.drop_last(), name);
        assert forall|j: int| 0 <= j < set.len() - 1 implies #[trigger] set[j] == set.drop_last()[j] by {}
    }
}

impl PathSet {
    /// Parses each path, joined by `::`; fails with the error of the first
    /// path that does not parse.
    pub fn new(path_arr: &[&[&str]]) -> (r: Result<PathSet, PatternError>)
        ensures
            match r {
                Ok(ps) => ps@ == paths_view(path_arr@).map_values(
                    |p: Seq<Seq<char>>| path_entry(p),
                ) && forall|i: int|
                    0 <= i < path_arr@.len() ==> path_parses(#[trigger] paths_view(path_arr@)[i]),
                Err(e) => exists|i: int|
                    0 <= i < path_arr@.len() && spec_parse(
                        join_path(#[trigger] paths_view(path_arr@)[i]),
                    ) == Err::<Seq<Option<Seq<char>>>, PatternError>(e),
            },
    {
        let ghost paths = paths_view(path_arr@);
        let mut set: Vec<(String, Pattern)> = Vec::new();
        let mut i: usize = 0;
        while i < path_arr.len()
            invariant
                paths == paths_view(path_arr@),
                i <= path_arr@.len(),
                set@.len() == i,
                forall|k: int| 0 <= k < i ==> path_parses(#[trigger] paths[k]),
                forall|k: int|
                    0 <= k < i ==> (#[trigger] set@[k]).0@ == path_entry(paths[k]).0 && set@[k].1@
                        == path_entry(paths[k]).1,
            decreases path_arr@.len() - i,
        {
            let name = slice_to_string(path_arr[i]);
            assert(name@ == join_path(paths[i as int]));
            match Pattern::parse(name.as_str()) {
                Ok(pat) => {
                    set.push((name, pat));
                },
                Err(e) => {
                    return Err(e);
                },
            }
            i = i + 1;
        }
        let ps = PathSet { set };
        assert(ps@ =~= paths.map_values(|p: Seq<Seq<char>>| path_entry(p)));
        Ok(ps)
    }

    /// The position of the first pattern that `target` matches.
    pub fn find(&self, target: &Name) -> (r: Option<usize>)
        ensures
            r matches Some(i) ==> first_match(self@, target@) == Some(i as int),
            r is None ==> first_match(self@, target@) is None,
    {
        proof {
            lemma_first_match(self@, target@);
        }
        let mut i: usize = 0;
        while i < self.set.len()
            invariant
                i <= self@.len(),
                self@.len() == self.set@.len(),
                forall|j: int| 0 <= j < i ==> !spec_matches(#[trigger] self@[j].1, target@),
            decreases self@.len() - i,
        {
            assert(self@[i as int].1 == self.set@[i as int].1@);
            if self.set[i].1.matches_name(target) {
                proof {
                    lemma_first_match(self@, target@);
                }
                return Some(i);
            }
            i = i + 1;
        }
        proof {
            lemma_first_match(self@, target@);
        }
        None
    }

    /// The canonical string of the first pattern, in catalog order, that
    /// `target` matches.
    pub fn contains(&self, _program: &Program, target: &Name) -> (r: Option<String>)
        ensures
            match first_match(self@, target@) {
                Some(i) => r matches Some(s) && s@ == self@[i].0,
                None => r is None,
            },
    {
        proof {
            lemma_first_match(self@, target@);
        }
        match self.find(target) {
            Some(i) => {
                assert(self@[i as int].0 == self.set@[i as int].0@);
                Some(self.set[i].0.clone())
            },
            None => None,
        }
    }
}

// Strong bypasses.
pub const PTR_READ: [&'static str; 3] = ["core", "ptr", "read"];
pub const PTR_DIRECT_READ: [&'static str; 5] = ["core", "ptr", "const_ptr", "<_>", "read"];
pub const INTRINSICS_COPY: [&'static str; 3] = ["core", "intrinsics", "copy"];
pub const INTRINSICS_COPY_NONOVERLAPPING: [&'static str; 3] = ["core", "intrinsics", "copy_nonoverlapping"];
pub const VEC_SET_LEN: [&'static str; 4] = ["alloc", "vec", "<Vec<_>>", "set_len"];
pub const VEC_FROM_RAW_PARTS: [&'static str; 4] = ["alloc", "vec", "<Vec<_>>", "from_raw_parts"];

// Weak bypasses.
pub const TRANSMUTE: [&'static str; 4] = ["core", "intrinsics", "", "transmute"];
pub const PTR_WRITE: [&'static str; 3] = ["core", "ptr", "write"];
pub const PTR_DIRECT_WRITE: [&'static str; 5] = ["core", "ptr", "mut_ptr", "<_>", "write"];
pub const PTR_AS_REF: [&'static str; 5] = ["core", "ptr", "const_ptr", "<_>", "as_ref"];
pub const PTR_AS_MUT: [&'static str; 5] = ["core", "ptr", "mut_ptr", "<_>", "as_mut"];
pub const NON_NULL_AS_REF: [&'static str; 5] = ["core", "ptr", "non_nul", "<NonNull<T>>", "as_ref"];
pub const NON_NULL_AS_MUT: [&'static str; 5] = ["core", "ptr", "non_nul", "<NonNull<T>>", "as_mut"];
pub const SLICE_GET_UNCHECKED: [&'static str; 4] = ["core", "slice", "<[T]>", "get_unchecked"];
pub const SLICE_GET_UNCHECKED_MUT: [&'static str; 4] = ["core", "slice", "<[T]>", "get_unchecked_mut"];
pub const PTR_SLICE_FROM_RAW_PARTS: [&'static str; 3] = ["core", "ptr", "slice_from_raw_parts"];
pub const PTR_SLICE_FROM_RAW_PARTS_MUT: [&'static str; 3] = ["core", "ptr", "slice_from_raw_parts_mut"];
pub const SLICE_FROM_RAW_PARTS: [&'static str; 3] = ["core", "slice", "from_raw_parts"];
pub const SLICE_FROM_RAW_PARTS_MUT: [&'static str; 3] = ["core", "slice", "from_raw_parts_mut"];

// Calls whose target code is arbitrary.
pub const PTR_DROP_IN_PLACE: [&'static str; 3] = ["core", "ptr", "drop_in_place"];
pub const PTR_DIRECT_DROP_IN_PLACE: [&'static str; 5] = ["core", "ptr", "mut_ptr", "<_>", "drop_in_place"];

// Names of the functions whose calls are listed instead of analysed.
pub const PATHS_DISCOVERY_CRATE: [&'static str; 1] = ["rudra_paths_discovery"];
pub const PATHS_DISCOVERY_TYPE: [&'static str; 1] = ["PathsDiscovery"];
pub const PATHS_DISCOVERY_FN: [&'static str; 1] = ["discover"];

pub open spec fn segs<const N: usize>(a: [&str; N]) -> Seq<Seq<char>> {
    a@.map_values(|s: &str| s@)
}

pub open spec fn strong_paths() -> Seq<Seq<Seq<char>>> {
    seq![
        segs(PTR_READ),
        segs(PTR_DIRECT_READ),
        segs(INTRINSICS_COPY),
        segs(INTRINSICS_COPY_NONOVERLAPPING),
        segs(VEC_SET_LEN),
        segs(VEC_FROM_RAW_PARTS),
    ]
}

pub open spec fn weak_paths() -> Seq<Seq<Seq<char>>> {
    seq![
        segs(TRANSMUTE),
        segs(PTR_WRITE),
        segs(PTR_DIRECT_WRITE),
        segs(PTR_AS_REF),
        segs(PTR_AS_MUT),
        segs(NON_NULL_AS_REF),
        segs(NON_NULL_AS_MUT),
        segs(SLICE_GET_UNCHECKED),
        segs(SLICE_GET_UNCHECKED_MUT),
        segs(PTR_SLICE_FROM_RAW_PARTS),
        segs(PTR_SLICE_FROM_RAW_PARTS_MUT),
        segs(SLICE_FROM_RAW_PARTS),
        segs(SLICE_FROM_RAW_PARTS_MUT),
    ]
}

pub open spec fn generic_fn_paths() -> Seq<Seq<Seq<char>>> {
    seq![segs(PTR_DROP_IN_PLACE), segs(PTR_DIRECT_DROP_IN_PLACE)]
}

pub open spec fn ptr_read_paths() -> Seq<Seq<Seq<char>>> {
    seq![segs(PTR_READ), segs(PTR_DIRECT_READ)]
}

pub open spec fn ptr_write_paths() -> Seq<Seq<Seq<char>>> {
    seq![segs(PTR_WRITE), segs(PTR_DIRECT_WRITE)]
}

pub open spec fn paths_discovery_paths() -> Seq<Seq<Seq<char>>> {
    seq![segs(PATHS_DISCOVERY_CRATE), segs(PATHS_DISCOVERY_TYPE), segs(PATHS_DISCOVERY_FN)]
}

/// The entries of a path set built from `paths`.
pub open spec fn entries(paths: Seq<Seq<Seq<char>>>) -> Seq<(Seq<char>, Seq<Option<Seq<char>>>)> {
    paths.map_values(|p: Seq<Seq<char>>| path_entry(p))
}

pub open spec fn all_parse(paths: Seq<Seq<Seq<char>>>) -> bool {
    forall|i: int| 0 <= i < paths.len() ==> path_parses(#[trigger] paths[i])
}

/// The flag bits of the strong bypass at position `i` of the strong list.
pub open spec fn strong_flag_bits(i: int) -> u16 {
    if i == 0 || i == 1 {
        crate::flags::READ_FLOW
    } else if i == 2 || i == 3 {
        crate::flags::COPY_FLOW
    } else if i == 4 {
        crate::flags::VEC_SET_LEN
    } else {
        crate::flags::VEC_FROM_RAW
    }
}

/// The flag bits of the weak bypass at position `i` of the weak list.
pub open spec fn weak_flag_bits(i: int) -> u16 {
    if i == 0 {
        crate::flags::TRANSMUTE
    } else if i == 1 || i == 2 {
        crate::flags::WRITE_FLOW
    } else if 3 <= i <= 6 {
        crate::flags::PTR_AS_REF
    } else if i == 7 || i == 8 {
        crate::flags::SLICE_UNCHECKED
    } else {
        crate::flags::SLICE_FROM_RAW
    }
}

pub fn strong_bypass_flag(i: usize) -> (r: u16)
    ensures
        r == strong_flag_bits(i as int),
{
    if i == 0 || i == 1 {
        crate::flags::READ_FLOW
    } else if i == 2 || i == 3 {
        crate::flags::COPY_FLOW
    } else if i == 4 {
        crate::flags::VEC_SET_LEN
    } else {
        crate::flags::VEC_FROM_RAW
    }
}

pub fn weak_bypass_flag(i: usize) -> (r: u16)
    ensures
        r == weak_flag_bits(i as int),
{
    if i == 0 {
        crate::flags::TRANSMUTE
    } else if i == 1 || i == 2 {
        crate::flags::WRITE_FLOW
    } else if 3 <= i && i <= 6 {
        crate::flags::PTR_AS_REF
    } else if i == 7 || i == 8 {
        crate::flags::SLICE_UNCHECKED
    } else {
        crate::flags::SLICE_FROM_RAW
    }
}

/// The pattern tables of the analysis, built once before any function is
/// analysed and read-only afterwards.
#[derive(Clone, Debug)]
pub struct Catalog {
    strong: PathSet,
    weak: PathSet,
    generic_fns: PathSet,
    ptr_read: PathSet,
    ptr_write: PathSet,
    vec_set_len: Pattern,
    paths_discovery: PathSet,
}

impl Catalog {
    pub closed spec fn strong(&self) -> Seq<(Seq<char>, Seq<Option<Seq<char>>>)> {
        self.strong@
    }

    pub closed spec fn weak(&self) -> Seq<(Seq<char>, Seq<Option<Seq<char>>>)> {
        self.weak@
    }

    pub closed spec fn generic_fns(&self) -> Seq<(Seq<char>, Seq<Option<Seq<char>>>)> {
        self.generic_fns@
    }

    pub closed spec fn ptr_read(&self) -> Seq<(Seq<char>, Seq<Option<Seq<char>>>)> {
        self.ptr_read@
    }

    pub closed spec fn ptr_write(&self) -> Seq<(Seq<char>, Seq<Option<Seq<char>>>)> {
        self.ptr_write@
    }

    pub closed spec fn vec_set_len(&self) -> Seq<Option<Seq<char>>> {
        self.vec_set_len@
    }

    pub closed spec fn paths_discovery(&self) -> Seq<(Seq<char>, Seq<Option<Seq<char>>>)> {
        self.paths_discovery@
    }

    pub fn strong_set(&self) -> (r: &PathSet)
        ensures
            r@ == self.strong(),
    {
        &self.strong
    }

    pub fn weak_set(&self) -> (r: &PathSet)
        ensures
            r@ == self.weak(),
    {
        &self.weak
    }

    pub fn generic_fn_set(&self) -> (r: &PathSet)
        ensures
            r@ == self.generic_fns(),
    {
        &self.generic_fns
    }

    pub fn ptr_read_set(&self) -> (r: &PathSet)
        ensures
            r@ == self.ptr_read(),
    {
        &self.ptr_read
    }

    pub fn ptr_write_set(&self) -> (r: &PathSet)
        ensures
            r@ == self.ptr_write(),
    {
        &self.ptr_write
    }

    pub fn vec_set_len_pattern(&self) -> (r: &Pattern)
        ensures
            r@ == self.vec_set_len(),
    {
        &self.vec_set_len
    }

    pub fn paths_discovery_set(&self) -> (r: &PathSet)
        ensures
            r@ == self.paths_discovery(),
    {
        &self.paths_discovery
    }

    /// Every table holds the patterns of its path list, in order.
    pub open spec fn wf(&self) -> bool {
        &&& self.strong() == entries(strong_paths())
        &&& self.weak() == entries(weak_paths())
        &&& self.generic_fns() == entries(generic_fn_paths())
        &&& self.ptr_read() == entries(ptr_read_paths())
        &&& self.ptr_write() == entries(ptr_write_paths())
        &&& self.vec_set_len() == path_entry(segs(VEC_SET_LEN)).1
        &&& self.paths_discovery() == entries(paths_discovery_paths())
    }

    /// Parses every table; fails when one of their paths does not parse.
    pub fn new() -> (r: Result<Catalog, PatternError>)
        ensures
            r matches Ok(c) ==> c.wf(),
            r is Err <==> !(all_parse(strong_paths()) && all_parse(weak_paths()) && all_parse(
                generic_fn_paths(),
            ) && all_parse(ptr_read_paths()) && all_parse(ptr_write_paths()) && path_parses(
                segs(VEC_SET_LEN),
            ) && all_parse(paths_discovery_paths())),
    {
        let strong_arr: [&[&str]; 6] = [
            &PTR_READ,
            &PTR_DIRECT_READ,
            &INTRINSICS_COPY,
            &INTRINSICS_COPY_NONOVERLAPPING,
            &VEC_SET_LEN,
            &VEC_FROM_RAW_PARTS,
        ];
        assert(paths_view(strong_arr@) =~= strong_paths());
        let weak_arr: [&[&str]; 13] = [
            &TRANSMUTE,
            &PTR_WRITE,
            &PTR_DIRECT_WRITE,
            &PTR_AS_REF,
            &PTR_AS_MUT,
            &NON_NULL_AS_REF,
            &NON_NULL_AS_MUT,
            &SLICE_GET_UNCHECKED,
            &SLICE_GET_UNCHECKED_MUT,
            &PTR_SLICE_FROM_RAW_PARTS,
            &PTR_SLICE_FROM_RAW_PARTS_MUT,
            &SLICE_FROM_RAW_PARTS,
            &SLICE_FROM_RAW_PARTS_MUT,
        ];
        assert(paths_view(weak_arr@) =~= weak_paths());
        let generic_arr: [&[&str]; 2] = [&PTR_DROP_IN_PLACE, &PTR_DIRECT_DROP_IN_PLACE];
        assert(paths_view(generic_arr@) =~= generic_fn_paths());
        let read_arr: [&[&str]; 2] = [&PTR_READ, &PTR_DIRECT_READ];
        assert(paths_view(read_arr@) =~= ptr_read_paths());
        let write_arr: [&[&str]; 2] = [&PTR_WRITE, &PTR_DIRECT_WRITE];
        assert(paths_view(write_arr@) =~= ptr_write_paths());
        let discovery_arr: [&[&str]; 3] = [
            &PATHS_DISCOVERY_CRATE,
            &PATHS_DISCOVERY_TYPE,
            &PATHS_DISCOVERY_FN,
        ];
        assert(paths_view(discovery_arr@) =~= paths_discovery_paths());
        let strong = match PathSet::new(&strong_arr) {
            Ok(ps) => ps,
            Err(e) => return Err(e),
        };
        let weak = match PathSet::new(&weak_arr) {
            Ok(ps) => ps,
            Err(e) => return Err(e),
        };
        let generic_fns = match PathSet::new(&generic_arr) {
            Ok(ps) => ps,
            Err(e) => return Err(e),
        };
        let ptr_read = match PathSet::new(&read_arr) {
            Ok(ps) => ps,
            Err(e) => return Err(e),
        };
        let ptr_write = match PathSet::new(&write_arr) {
            Ok(ps) => ps,
            Err(e) => return Err(e),
        };
        let set_len_str = slice_to_string(&VEC_SET_LEN);
        let vec_set_len = match Pattern::parse(set_len_str.as_str()) {
            Ok(p) => p,
            Err(e) => return Err(e),
        };
        let paths_discovery = match PathSet::new(&discovery_arr) {
            Ok(ps) => ps,
            Err(e) => return Err(e),
        };
        assert(strong@ =~= entries(strong_paths()));
        assert(weak@ =~= entries(weak_paths()));
        assert(generic_fns@ =~= entries(generic_fn_paths()));
        assert(ptr_read@ =~= entries(ptr_read_paths()));
        assert(ptr_write@ =~= entries(ptr_write_paths()));
        assert(paths_discovery@ =~= entries(paths_discovery_paths()));
        Ok(Catalog { strong, weak, generic_fns, ptr_read, ptr_write, vec_set_len, paths_discovery })
    }
}

/// The segments of a path, joined by `::`.
pub fn slice_to_string(a: &[&str]) -> (r: String)
    ensures
        r@ == join_path(a@.map_values(|s: &str| s@)),
{
    let ghost segs = a@.map_values(|s: &str| s@);
    let mut r = String::new();
    let mut i: usize = 0;
    while i < a.len()
        invariant
            i <= a@.len(),
            segs == a@.map_values(|s: &str| s@),
            r@ == join_path(segs.subrange(0, i as int)),
        decreases a@.len() - i,
    {
        assert(segs.subrange(0, i + 1).drop_last() == segs.subrange(0, i as int));
        if i > 0 {
            r.append("::");
            proof {
                reveal_strlit("::");
            }
        }
        r.append(a[i]);
        i = i + 1;
    }
    assert(segs.subrange(0, i as int) == segs);
    r
}

} // verus!
