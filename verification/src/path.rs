//! Path components and the parser that produces them from a string.
//!
//! A path is a `/`-separated string.  Parsing normalizes it the way a
//! platform path iterator does: repeated separators collapse, `.` segments
//! disappear except as the first component of a relative path, and a
//! trailing separator is ignored.  `..` becomes [`Component::ParentDir`];
//! a leading separator becomes [`Component::RootDir`].  No string parses to
//! [`Component::Prefix`] (drive or volume syntax is not supported); the
//! variant exists so that component sequences built directly by a caller
//! can still express it and be answered with the documented error.

use vstd::prelude::*;

verus! {

/// One step of a path walk.
#[derive(Debug, Clone, PartialEq, Eq)]
pub enum Component {
    /// A platform drive or volume prefix; never produced by [`parse`].
    Prefix,
    /// The leading `/` of an absolute path.
    RootDir,
    /// A leading `.` of a relative path.
    CurDir,
    /// A `..` segment.
    ParentDir,
    /// A named segment.
    Normal(String),
}

/// The specification-level value of a [`Component`]: a named segment is its
/// character sequence.
pub enum ComponentView {
    Prefix,
    RootDir,
    CurDir,
    ParentDir,
    Normal(Seq<char>),
}

impl View for Component {
    type V = ComponentView;

    open spec fn view(&self) -> ComponentView {
        match self {
            Component::Prefix => ComponentView::Prefix,
            Component::RootDir => ComponentView::RootDir,
            Component::CurDir => ComponentView::CurDir,
            Component::ParentDir => ComponentView::ParentDir,
            Component::Normal(name) => ComponentView::Normal(name@),
        }
    }
}

impl DeepView for Component {
    type V = ComponentView;

    open spec fn deep_view(&self) -> ComponentView {
        self.view()
    }
}

/// The index of the first `/` in `s`, or `-1` if there is none.
pub open spec fn first_slash(s: Seq<char>) -> int
    decreases s.len(),
{
    if s.len() == 0 {
        -1
    } else if s[0] == '/' {
        0
    } else {
        let r = first_slash(s.skip(1));
        if r < 0 {
            -1
        } else {
            r + 1
        }
    }
}

pub proof fn lemma_first_slash_bounds(s: Seq<char>)
    ensures
        -1 <= first_slash(s) < s.len(),
        first_slash(s) >= 0 ==> s[first_slash(s)] == '/',
        forall|k: int| 0 <= k < first_slash(s) ==> s[k] != '/',
        first_slash(s) == -1 ==> forall|k: int| 0 <= k < s.len() ==> s[k] != '/',
    decreases s.len(),
{
    if s.len() == 0 {
    } else if s[0] == '/' {
    } else {
        lemma_first_slash_bounds(s.skip(1));
        assert forall|k: int| 0 <= k < first_slash(s) implies s[k] != '/' by {
            if k > 0 {
                assert(s.skip(1)[k - 1] == s[k]);
            }
        }
        if first_slash(s) == -1 {
            assert forall|k: int| 0 <= k < s.len() implies s[k] != '/' by {
                if k > 0 {
                    assert(s.skip(1)[k - 1] == s[k]);
                }
            }
        }
    }
}

/// `first_slash` is determined by the position of the first separator.
pub proof fn lemma_first_slash_at(s: Seq<char>, i: int)
    requires
        0 <= i < s.len(),
        s[i] == '/',
        forall|k: int| 0 <= k < i ==> s[k] != '/',
    ensures
        first_slash(s) == i,
    decreases s.len(),
{
    if i > 0 {
        assert forall|k: int| 0 <= k < i - 1 implies s.skip(1)[k] != '/' by {
            assert(s.skip(1)[k] == s[k + 1]);
        }
        assert(s.skip(1)[i - 1] == s[i]);
        lemma_first_slash_at(s.skip(1), i - 1);
    }
}

#[via_fn]
proof fn split_slash_decreases(s: Seq<char>) {
    lemma_first_slash_bounds(s);
}

/// The pieces of `s` between separators, in order, empty pieces included.
pub open spec fn split_slash(s: Seq<char>) -> Seq<Seq<char>>
    decreases s.len(),
        via split_slash_decreases
{
    let i = first_slash(s);
    if i < 0 {
        seq![s]
    } else {
        seq![s.take(i)] + split_slash(s.skip(i + 1))
    }
}

/// The one-character piece `.`.
pub open spec fn dot_piece() -> Seq<char> {
    seq!['.']
}

/// The two-character piece `..`.
pub open spec fn dot_dot_piece() -> Seq<char> {
    seq!['.', '.']
}

/// Whether a piece survives normalization: empty pieces and `.` do not.
pub open spec fn keep_piece(p: Seq<char>) -> bool {
    p.len() > 0 && p != dot_piece()
}

/// The component a surviving piece stands for.
pub open spec fn piece_component(p: Seq<char>) -> ComponentView {
    if p == dot_dot_piece() {
        ComponentView::ParentDir
    } else {
        ComponentView::Normal(p)
    }
}

/// The components of a piece sequence, after dropping the pieces that
/// normalization removes.
pub open spec fn convert_pieces(ps: Seq<Seq<char>>) -> Seq<ComponentView>
    decreases ps.len(),
{
    if ps.len() == 0 {
        Seq::empty()
    } else if keep_piece(ps[0]) {
        seq![piece_component(ps[0])] + convert_pieces(ps.skip(1))
    } else {
        convert_pieces(ps.skip(1))
    }
}

pub proof fn lemma_convert_pieces_snoc(ps: Seq<Seq<char>>, p: Seq<char>)
    ensures
        convert_pieces(ps + seq![p]) == convert_pieces(ps) + (if keep_piece(p) {
            seq![piece_component(p)]
        } else {
            Seq::<ComponentView>::empty()
        }),
    decreases ps.len(),
{
    let whole = ps + seq![p];
    if ps.len() == 0 {
        assert(whole[0] == p);
        assert(whole.skip(1) =~= Seq::<Seq<char>>::empty());
        assert(convert_pieces(whole.skip(1)) == Seq::<ComponentView>::empty());
        assert(convert_pieces(ps) == Seq::<ComponentView>::empty());
        if keep_piece(p) {
            assert(convert_pieces(whole) == seq![piece_component(p)] + Seq::<
                ComponentView,
            >::empty());
            assert(seq![piece_component(p)] + Seq::<ComponentView>::empty() =~= Seq::<
                ComponentView,
            >::empty() + seq![piece_component(p)]);
        } else {
            assert(convert_pieces(whole) == Seq::<ComponentView>::empty());
            assert(convert_pieces(ps) + Seq::<ComponentView>::empty() =~= Seq::<
                ComponentView,
            >::empty());
        }
    } else {
        assert(whole[0] == ps[0]);
        assert(whole.skip(1) =~= ps.skip(1) + seq![p]);
        lemma_convert_pieces_snoc(ps.skip(1), p);
        let tail = if keep_piece(p) {
            seq![piece_component(p)]
        } else {
            Seq::<ComponentView>::empty()
        };
        assert(convert_pieces(whole.skip(1)) == convert_pieces(ps.skip(1)) + tail);
        if keep_piece(ps[0]) {
            assert(convert_pieces(whole) == seq![piece_component(ps[0])] + (convert_pieces(
                ps.skip(1),
            ) + tail));
            assert(seq![piece_component(ps[0])] + (convert_pieces(ps.skip(1)) + tail) =~= (
            seq![piece_component(ps[0])] + convert_pieces(ps.skip(1))) + tail);
        }
    }
}

/// The components of a path string, as a platform path iterator yields
/// them: a leading separator gives `RootDir`; a leading `.` piece of a
/// rootless path gives `CurDir`; every other surviving piece gives
/// `ParentDir` or a named segment.
pub open spec fn parse_path(s: Seq<char>) -> Seq<ComponentView> {
    let ps = split_slash(s);
    let tail = convert_pieces(ps);
    if s.len() > 0 && s[0] == '/' {
        seq![ComponentView::RootDir] + tail
    } else if ps.len() > 0 && ps[0] == dot_piece() {
        seq![ComponentView::CurDir] + tail
    } else {
        tail
    }
}

/// Whether a piece equals `.`.
fn piece_is_dot(p: &String) -> (r: bool)
    ensures
        r == (p@ == dot_piece()),
{
    let s: &str = p.as_str();
    if s.unicode_len() == 1 {
        let c = s.get_char(0);
        proof {
            if c == '.' {
                assert(p@ =~= dot_piece());
            }
        }
        c == '.'
    } else {
        false
    }
}

/// Whether a piece equals `..`.
fn piece_is_dot_dot(p: &String) -> (r: bool)
    ensures
        r == (p@ == dot_dot_piece()),
{
    let s: &str = p.as_str();
    if s.unicode_len() == 2 {
        let c0 = s.get_char(0);
        let c1 = s.get_char(1);
        proof {
            if c0 == '.' && c1 == '.' {
                assert(p@ =~= dot_dot_piece());
            }
        }
        c0 == '.' && c1 == '.'
    } else {
        false
    }
}

/// Splits a path string at its separators, empty pieces included.
fn split_path(path: &str) -> (r: Vec<String>)
    ensures
        r.deep_view() == split_slash(path@),
        r.len() > 0,
{
    let n = path.unicode_len();
    let mut pieces: Vec<String> = Vec::new();
    let mut j: usize = 0;
    while j < n && path.get_char(j) != '/'
        invariant
            n == path@.len(),
            0 <= j <= n,
            forall|k: int| 0 <= k < j ==> path@[k] != '/',
        decreases n - j,
    {
        j += 1;
    }
    let piece = path.substring_char(0, j).to_owned();
    proof {
        if j < n {
            lemma_first_slash_at(path@, j as int);
            assert(path@.take(j as int) =~= path@.subrange(0, j as int));
        } else {
            lemma_first_slash_bounds(path@);
            if first_slash(path@) >= 0 {
                assert(false);
            }
            assert(path@.subrange(0, j as int) =~= path@);
        }
    }
    pieces.push(piece);
    proof {
        if j < n {
            assert(pieces.deep_view() =~= seq![path@.take(j as int)]);
        } else {
            assert(pieces.deep_view() =~= seq![path@]);
            assert(split_slash(path@) == seq![path@]);
        }
    }
    while j < n
        invariant
            n == path@.len(),
            0 <= j <= n,
            j < n ==> path@[j as int] == '/' && split_slash(path@) == pieces.deep_view()
                + split_slash(path@.skip(j + 1)),
            j == n ==> split_slash(path@) == pieces.deep_view(),
            pieces.len() > 0,
        decreases n - j,
    {
        let start = j + 1;
        let mut k = start;
        while k < n && path.get_char(k) != '/'
            invariant
                n == path@.len(),
                start <= k <= n,
                forall|m: int| start <= m < k ==> path@[m] != '/',
            decreases n - k,
        {
            k += 1;
        }
        let piece = path.substring_char(start, k).to_owned();
        let ghost rest = path@.skip(start as int);
        proof {
            assert(rest.len() == n - start);
            if k < n {
                assert forall|m: int| 0 <= m < k - start implies rest[m] != '/' by {
                    assert(rest[m] == path@[m + start]);
                }
                assert(rest[k - start] == path@[k as int]);
                lemma_first_slash_at(rest, k - start);
                assert(rest.take(k - start) =~= path@.subrange(start as int, k as int));
                assert(rest.skip(k - start + 1) =~= path@.skip(k + 1));
                assert(split_slash(rest) == seq![path@.subrange(start as int, k as int)]
                    + split_slash(path@.skip(k + 1)));
            } else {
                assert forall|m: int| 0 <= m < rest.len() implies rest[m] != '/' by {
                    assert(rest[m] == path@[m + start]);
                }
                lemma_first_slash_bounds(rest);
                if first_slash(rest) >= 0 {
                    assert(false);
                }
                assert(path@.subrange(start as int, k as int) =~= rest);
                assert(split_slash(rest) == seq![rest]);
            }
        }
        let ghost before = pieces.deep_view();
        pieces.push(piece);
        proof {
            assert(pieces.deep_view() =~= before + seq![path@.subrange(start as int, k as int)]);
            if k < n {
                assert(split_slash(path@) == pieces.deep_view() + split_slash(path@.skip(k + 1)))
                    by {
                    assert(before + (seq![path@.subrange(start as int, k as int)] + split_slash(
                        path@.skip(k + 1),
                    )) =~= (before + seq![path@.subrange(start as int, k as int)]) + split_slash(
                        path@.skip(k + 1),
                    ));
                }
            } else {
                assert(split_slash(path@) == pieces.deep_view()) by {
                    assert(before + seq![rest] =~= pieces.deep_view());
                }
            }
        }
        j = k;
    }
    pieces
}

/// Parses a path string into its components.
pub fn parse(path: &str) -> (r: Vec<Component>)
    ensures
        r.deep_view() == parse_path(path@),
{
    let pieces = split_path(path);
    let n = path.unicode_len();
    let has_root = n > 0 && path.get_char(0) == '/';
    let mut comps: Vec<Component> = Vec::new();
    if has_root {
        comps.push(Component::RootDir);
    } else if piece_is_dot(&pieces[0]) {
        comps.push(Component::CurDir);
    }
    let ghost prefix = comps.deep_view();
    let ghost ps = pieces.deep_view();
    let mut i: usize = 0;
    proof {
        assert(ps.take(0) =~= Seq::<Seq<char>>::empty());
        assert(comps.deep_view() =~= prefix + convert_pieces(ps.take(0)));
    }
    while i < pieces.len()
        invariant
            ps == pieces.deep_view(),
            0 <= i <= pieces.len(),
            comps.deep_view() == prefix + convert_pieces(ps.take(i as int)),
        decreases pieces.len() - i,
    {
        let piece = &pieces[i];
        let ghost before = comps.deep_view();
        if !piece.as_str().is_empty() && !piece_is_dot(piece) {
            if piece_is_dot_dot(piece) {
                comps.push(Component::ParentDir);
            } else {
                comps.push(Component::Normal(piece.clone()));
            }
            proof {
                assert(comps.deep_view() =~= before + seq![piece_component(piece@)]);
            }
        }
        proof {
            assert(ps.take(i + 1) =~= ps.take(i as int) + seq![piece@]);
            lemma_convert_pieces_snoc(ps.take(i as int), piece@);
            assert(comps.deep_view() =~= prefix + convert_pieces(ps.take(i + 1)));
        }
        i += 1;
    }
    proof {
        assert(ps.take(pieces.len() as int) =~= ps);
        if has_root {
            assert(comps.deep_view() == parse_path(path@));
        } else if ps[0] == dot_piece() {
            assert(comps.deep_view() == parse_path(path@));
        } else {
            assert(prefix =~= Seq::<ComponentView>::empty());
            assert(comps.deep_view() =~= convert_pieces(ps));
        }
    }
    comps
}

} // verus!
