//! Mod-relative paths, written as `/`-separated strings: splitting into parts,
//! joining, parents, and the canonical `/`-rooted form used to name sources.
//!
//! A path is read as its pieces between `/` characters. Empty pieces are
//! ignored, `..` names the parent and `.` the current directory (kept only as the
//! first piece of a relative path, elsewhere ignored); a leading `/` marks the root.

use vstd::prelude::*;
use crate::text::{push_char, string_from_range, chars_of, str_eq};

verus! {

/// One part of a path.
pub enum PathPart {
    Root,
    Cur,
    Parent,
    Normal(Seq<char>),
}

/// The pieces of `s` between `/` characters (always at least one, possibly empty).
pub open spec fn pieces(s: Seq<char>) -> Seq<Seq<char>>
    decreases s.len(),
{
    if s.len() == 0 {
        seq![Seq::<char>::empty()]
    } else if s.last() == '/' {
        pieces(s.drop_last()).push(Seq::<char>::empty())
    } else {
        let p = pieces(s.drop_last());
        p.update(p.len() - 1, p.last().push(s.last()))
    }
}

/// The part a piece denotes, if any; `first_relative` says whether it is the first
/// piece of a relative path.
pub open spec fn piece_part(p: Seq<char>, first_relative: bool) -> Seq<PathPart> {
    if p.len() == 0 {
        Seq::empty()
    } else if p == seq!['.'] {
        if first_relative {
            seq![PathPart::Cur]
        } else {
            Seq::empty()
        }
    } else if p == seq!['.', '.'] {
        seq![PathPart::Parent]
    } else {
        seq![PathPart::Normal(p)]
    }
}

/// Parts of the pieces `ps` of a path that is relative when `rel`.
pub open spec fn pieces_parts(ps: Seq<Seq<char>>, rel: bool) -> Seq<PathPart>
    decreases ps.len(),
{
    if ps.len() == 0 {
        Seq::empty()
    } else {
        pieces_parts(ps.drop_last(), rel) + piece_part(ps.last(), rel && ps.len() == 1)
    }
}

/// Whether `s` is absolute (starts at the root).
pub open spec fn is_absolute(s: Seq<char>) -> bool {
    s.len() > 0 && s[0] == '/'
}

/// The parts of path `s`.
pub open spec fn parts(s: Seq<char>) -> Seq<PathPart> {
    (if is_absolute(s) {
        seq![PathPart::Root]
    } else {
        Seq::empty()
    }) + pieces_parts(pieces(s), !is_absolute(s))
}

/// Directory names left after resolving `.` and `..` (a `..` at the top is dropped).
pub open spec fn normalized_names(ps: Seq<PathPart>) -> Seq<Seq<char>>
    decreases ps.len(),
{
    if ps.len() == 0 {
        Seq::empty()
    } else {
        let st = normalized_names(ps.drop_last());
        match ps.last() {
            PathPart::Normal(n) => st.push(n),
            PathPart::Parent => if st.len() > 0 {
                st.drop_last()
            } else {
                st
            },
            _ => st,
        }
    }
}

/// `names` joined with `/`.
pub open spec fn join_names(names: Seq<Seq<char>>) -> Seq<char>
    decreases names.len(),
{
    if names.len() == 0 {
        Seq::empty()
    } else if names.len() == 1 {
        names[0]
    } else {
        join_names(names.drop_last()) + seq!['/'] + names.last()
    }
}

/// The text of a part.
pub open spec fn part_text(p: PathPart) -> Seq<char> {
    match p {
        PathPart::Root => Seq::empty(),
        PathPart::Cur => seq!['.'],
        PathPart::Parent => seq!['.', '.'],
        PathPart::Normal(n) => n,
    }
}

/// A path written from its parts: a leading `/` for the root, then the other
/// parts joined with `/`.
pub open spec fn render(ps: Seq<PathPart>) -> Seq<char> {
    if ps.len() > 0 && ps[0] == PathPart::Root {
        seq!['/'] + join_names(ps.drop_first().map_values(|p: PathPart| part_text(p)))
    } else {
        join_names(ps.map_values(|p: PathPart| part_text(p)))
    }
}

/// `base` joined with `rel`: `rel` itself when absolute, else `rel` appended after
/// a `/` unless `base` is empty or already ends with one.
pub open spec fn join_path(base: Seq<char>, rel: Seq<char>) -> Seq<char> {
    if is_absolute(rel) {
        rel
    } else if base.len() > 0 && base.last() != '/' {
        base + seq!['/'] + rel
    } else {
        base + rel
    }
}

/// The parent of `s`: none for an empty path or the root, else the path without
/// its last part.
pub open spec fn parent_of(s: Seq<char>) -> Option<Seq<char>> {
    let ps = parts(s);
    if ps.len() == 0 || ps.last() == PathPart::Root {
        None
    } else {
        Some(render(ps.drop_last()))
    }
}

/// The parts of `path` after those of `base`, when `base`'s parts begin `path`'s;
/// else all of `path`'s parts.
pub open spec fn parts_after(path: Seq<char>, base: Seq<char>) -> Seq<PathPart> {
    let pp = parts(path);
    let bp = parts(base);
    if bp.len() <= pp.len() && pp.subrange(0, bp.len() as int) == bp {
        pp.subrange(bp.len() as int, pp.len() as int)
    } else {
        pp
    }
}

/// The canonical name of `path` inside the mod at `mod_source`: its parts after
/// the mod's, with `.` and `..` resolved, joined with `/` behind a leading `/`.
pub open spec fn mod_path_name(mod_source: Seq<char>, path: Seq<char>) -> Seq<char> {
    let j = join_names(normalized_names(parts_after(path, mod_source)));
    if j.len() > 0 && j[0] == '/' {
        j
    } else {
        seq!['/'] + j
    }
}

/// One part of a path, as a value.
pub enum PathPiece {
    Root,
    Cur,
    Parent,
    Normal(String),
}

impl View for PathPiece {
    type V = PathPart;

    open spec fn view(&self) -> PathPart {
        match self {
            PathPiece::Root => PathPart::Root,
            PathPiece::Cur => PathPart::Cur,
            PathPiece::Parent => PathPart::Parent,
            PathPiece::Normal(n) => PathPart::Normal(n@),
        }
    }
}

/// Views of path pieces.
pub open spec fn pieces_view(v: Seq<PathPiece>) -> Seq<PathPart> {
    v.map_values(|p: PathPiece| p@)
}

fn classify(v: &Vec<char>, lo: usize, hi: usize, first_relative: bool, out: &mut Vec<PathPiece>)
    requires
        lo <= hi <= v.len(),
    ensures
        pieces_view(final(out)@) == pieces_view(old(out)@) + piece_part(
            v@.subrange(lo as int, hi as int),
            first_relative,
        ),
{
    let ghost p = v@.subrange(lo as int, hi as int);
    let ghost before = out@;
    if hi == lo {
        return;
    }
    if hi - lo == 1 && v[lo] == '.' {
        assert(p =~= seq!['.']);
        if first_relative {
            out.push(PathPiece::Cur);
            assert(pieces_view(out@) =~= pieces_view(before) + seq![PathPart::Cur]);
        }
        return;
    }
    if hi - lo == 2 && v[lo] == '.' && v[lo + 1] == '.' {
        assert(p =~= seq!['.', '.']);
        out.push(PathPiece::Parent);
        assert(pieces_view(out@) =~= pieces_view(before) + seq![PathPart::Parent]);
        return;
    }
    assert(p != seq!['.']) by {
        if p == seq!['.'] {
            assert(p.len() == 1 && p[0] == v@[lo as int]);
        }
    }
    assert(p != seq!['.', '.']) by {
        if p == seq!['.', '.'] {
            assert(p.len() == 2 && p[0] == v@[lo as int] && p[1] == v@[lo + 1]);
        }
    }
    let name = string_from_range(v, lo, hi);
    out.push(PathPiece::Normal(name));
    assert(pieces_view(out@) =~= pieces_view(before) + seq![PathPart::Normal(p)]);
}

proof fn lemma_pieces_shape(s: Seq<char>)
    ensures
        pieces(s).len() >= 1,
    decreases s.len(),
{
    if s.len() > 0 {
        lemma_pieces_shape(s.drop_last());
    }
}

/// Splits `s` into its parts.
pub fn path_parts(s: &str) -> (r: Vec<PathPiece>)
    ensures
        pieces_view(r@) == parts(s@),
{
    let v = chars_of(s);
    let n = v.len();
    let abs = n > 0 && v[0] == '/';
    let mut out: Vec<PathPiece> = Vec::new();
    if abs {
        out.push(PathPiece::Root);
    }
    let ghost head: Seq<PathPart> = if abs {
        seq![PathPart::Root]
    } else {
        Seq::empty()
    };
    assert(pieces_view(out@) =~= head);
    // `start` is where the current piece begins; pieces before it are classified.
    let mut start: usize = 0;
    let mut i: usize = 0;
    let mut count: usize = 0;
    proof {
        assert(v@.subrange(0, 0) =~= Seq::<char>::empty());
        assert(pieces(Seq::<char>::empty()) == seq![Seq::<char>::empty()]);
    }
    while i < n
        invariant
            n == v@.len(),
            v@ == s@,
            abs == is_absolute(v@),
            start <= i <= n,
            count <= i,
            pieces(v@.subrange(0, i as int)).len() == count + 1,
            pieces(v@.subrange(0, i as int)).last() == v@.subrange(start as int, i as int),
            pieces_view(out@) == head + pieces_parts(
                pieces(v@.subrange(0, i as int)).drop_last(),
                !abs,
            ),
        decreases n - i,
    {
        let ghost pre = v@.subrange(0, i as int);
        let ghost cur = v@.subrange(0, i + 1);
        proof {
            assert(cur.drop_last() =~= pre);
            assert(cur.last() == v@[i as int]);
            lemma_pieces_shape(pre);
        }
        if v[i] == '/' {
            let first_rel = !abs && count == 0;
            proof {
                assert(pieces(cur) == pieces(pre).push(Seq::<char>::empty()));
                assert(pieces(cur).drop_last() == pieces(pre));
                let ps = pieces(pre);
                assert(ps =~= ps.drop_last().push(ps.last()));
                assert(pieces_parts(ps, !abs) == pieces_parts(ps.drop_last(), !abs) + piece_part(
                    ps.last(),
                    !abs && ps.len() == 1,
                ));
            }
            classify(&v, start, i, first_rel, &mut out);
            proof {
                let ps = pieces(pre);
                assert(head + pieces_parts(ps.drop_last(), !abs) + piece_part(ps.last(), first_rel)
                    =~= head + (pieces_parts(ps.drop_last(), !abs) + piece_part(ps.last(), first_rel)));
            }
            start = i + 1;
            count = count + 1;
            proof {
                assert(v@.subrange(start as int, i + 1) =~= Seq::<char>::empty());
            }
        } else {
            proof {
                let p = pieces(pre);
                assert(pieces(cur) == p.update(p.len() - 1, p.last().push(v@[i as int])));
                assert(pieces(cur).drop_last() =~= p.drop_last());
                assert(v@.subrange(start as int, i + 1) =~= v@.subrange(start as int, i as int).push(
                    v@[i as int],
                ));
            }
        }
        i = i + 1;
    }
    let first_rel = !abs && count == 0;
    classify(&v, start, n, first_rel, &mut out);
    proof {
        assert(v@.subrange(0, n as int) =~= v@);
        let ps = pieces(v@);
        assert(ps =~= ps.drop_last().push(ps.last()));
        assert(pieces_parts(ps, !abs) == pieces_parts(ps.drop_last(), !abs) + piece_part(
            ps.last(),
            !abs && ps.len() == 1,
        ));
        assert(pieces_view(out@) =~= parts(s@));
    }
    out
}

fn piece_eq(a: &PathPiece, b: &PathPiece) -> (r: bool)
    ensures
        r == (a@ == b@),
{
    match (a, b) {
        (PathPiece::Root, PathPiece::Root) => true,
        (PathPiece::Cur, PathPiece::Cur) => true,
        (PathPiece::Parent, PathPiece::Parent) => true,
        (PathPiece::Normal(x), PathPiece::Normal(y)) => str_eq(x.as_str(), y.as_str()),
        _ => false,
    }
}

/// Where the parts after `base` start in `path`: past `base`'s parts when they
/// begin `path`'s, else 0.
fn after_prefix(path: &Vec<PathPiece>, base: &Vec<PathPiece>) -> (r: usize)
    ensures
        r <= path@.len(),
        pieces_view(path@).subrange(r as int, path@.len() as int) == if base@.len()
            <= path@.len() && pieces_view(path@).subrange(0, base@.len() as int) == pieces_view(
            base@,
        ) {
            pieces_view(path@).subrange(base@.len() as int, path@.len() as int)
        } else {
            pieces_view(path@)
        },
{
    let pv = Ghost(pieces_view(path@));
    let bv = Ghost(pieces_view(base@));
    if base.len() > path.len() {
        assert(pv@.subrange(0, path@.len() as int) =~= pv@);
        return 0;
    }
    let mut i: usize = 0;
    while i < base.len()
        invariant
            base@.len() <= path@.len(),
            i <= base@.len(),
            pv@ == pieces_view(path@),
            bv@ == pieces_view(base@),
            forall|j: int| 0 <= j < i ==> pv@[j] == bv@[j],
        decreases base.len() - i,
    {
        if !piece_eq(&path[i], &base[i]) {
            assert(pv@.subrange(0, base@.len() as int)[i as int] != bv@[i as int]);
            assert(pv@.subrange(0, path@.len() as int) =~= pv@);
            return 0;
        }
        i = i + 1;
    }
    assert(pv@.subrange(0, base@.len() as int) =~= bv@);
    base.len()
}

proof fn lemma_norm_step(ps: Seq<PathPart>, lo: int, i: int)
    requires
        0 <= lo <= i < ps.len(),
    ensures
        ps.subrange(lo, i + 1).drop_last() == ps.subrange(lo, i),
        ps.subrange(lo, i + 1).last() == ps[i],
{
    assert(ps.subrange(lo, i + 1).drop_last() =~= ps.subrange(lo, i));
}

/// Names of the normal parts of `ps[from..]` after resolving `.` and `..`.
fn normalize_parts(ps: &Vec<PathPiece>, from: usize) -> (r: Vec<String>)
    requires
        from <= ps@.len(),
    ensures
        r@.map_values(|s: String| s@) == normalized_names(
            pieces_view(ps@).subrange(from as int, ps@.len() as int),
        ),
{
    let ghost pv = pieces_view(ps@);
    let mut st: Vec<String> = Vec::new();
    let mut i = from;
    assert(pv.subrange(from as int, from as int) =~= Seq::<PathPart>::empty());
    assert(st@.map_values(|s: String| s@) =~= Seq::<Seq<char>>::empty());
    while i < ps.len()
        invariant
            from <= i <= ps@.len(),
            pv == pieces_view(ps@),
            st@.map_values(|s: String| s@) == normalized_names(pv.subrange(from as int, i as int)),
        decreases ps.len() - i,
    {
        proof {
            lemma_norm_step(pv, from as int, i as int);
        }
        let ghost old_st = st@;
        match &ps[i] {
            PathPiece::Normal(n) => {
                st.push(n.clone());
                assert(st@.map_values(|s: String| s@) =~= old_st.map_values(|s: String| s@).push(
                    n@,
                ));
            },
            PathPiece::Parent => {
                if st.len() > 0 {
                    st.pop();
                    assert(st@.map_values(|s: String| s@) =~= old_st.map_values(
                        |s: String| s@,
                    ).drop_last());
                }
            },
            _ => {},
        }
        i = i + 1;
    }
    st
}

/// `names` joined with `/`.
fn join_with_slash(names: &Vec<String>) -> (r: String)
    ensures
        r@ == join_names(names@.map_values(|s: String| s@)),
{
    let ghost nv = names@.map_values(|s: String| s@);
    let mut r = String::new();
    let mut i: usize = 0;
    while i < names.len()
        invariant
            i <= names@.len(),
            nv == names@.map_values(|s: String| s@),
            r@ == join_names(nv.subrange(0, i as int)),
        decreases names.len() - i,
    {
        let ghost sub = nv.subrange(0, i + 1);
        proof {
            assert(sub.drop_last() =~= nv.subrange(0, i as int));
            assert(sub.last() == names@[i as int]@);
        }
        if i > 0 {
            push_char(&mut r, '/');
        }
        r.append(names[i].as_str());
        proof {
            if i == 0 {
                assert(sub.len() == 1);
                assert(r@ =~= sub[0]);
            }
        }
        i = i + 1;
    }
    assert(nv.subrange(0, names@.len() as int) =~= nv);
    r
}

/// The canonical mod-relative name of `path` (see [`mod_path_name`]).
pub fn normalize_mod_path(mod_source: &str, path: &str) -> (r: String)
    ensures
        r@ == mod_path_name(mod_source@, path@),
{
    let pp = path_parts(path);
    let bp = path_parts(mod_source);
    let from = after_prefix(&pp, &bp);
    let names = normalize_parts(&pp, from);
    let joined = join_with_slash(&names);
    if joined.unicode_len() > 0 && joined.as_str().get_char(0) == '/' {
        joined
    } else {
        let mut r = String::new();
        push_char(&mut r, '/');
        r.append(joined.as_str());
        assert(r@ =~= seq!['/'] + joined@);
        r
    }
}

/// `base` joined with `rel` (see [`join_path`]).
pub fn join_paths(base: &str, rel: &str) -> (r: String)
    ensures
        r@ == join_path(base@, rel@),
{
    let rn = rel.unicode_len();
    if rn > 0 && rel.get_char(0) == '/' {
        return String::from_str(rel);
    }
    let bn = base.unicode_len();
    let mut r = String::from_str(base);
    if bn > 0 && base.get_char(bn - 1) != '/' {
        push_char(&mut r, '/');
    }
    r.append(rel);
    r
}

/// Text of the parts `ps[lo..hi]` joined with `/`.
fn join_part_texts(ps: &Vec<PathPiece>, lo: usize, hi: usize) -> (r: String)
    requires
        lo <= hi <= ps@.len(),
    ensures
        r@ == join_names(pieces_view(ps@).subrange(lo as int, hi as int).map_values(
            |p: PathPart| part_text(p),
        )),
{
    let ghost tv = pieces_view(ps@).map_values(|p: PathPart| part_text(p));
    let mut r = String::new();
    let mut i = lo;
    while i < hi
        invariant
            lo <= i <= hi <= ps@.len(),
            tv == pieces_view(ps@).map_values(|p: PathPart| part_text(p)),
            r@ == join_names(tv.subrange(lo as int, i as int)),
        decreases hi - i,
    {
        let ghost sub = tv.subrange(lo as int, i + 1);
        proof {
            assert(sub.drop_last() =~= tv.subrange(lo as int, i as int));
        }
        if i > lo {
            push_char(&mut r, '/');
        }
        match &ps[i] {
            PathPiece::Root => {},
            PathPiece::Cur => {
                push_char(&mut r, '.');
            },
            PathPiece::Parent => {
                push_char(&mut r, '.');
                push_char(&mut r, '.');
            },
            PathPiece::Normal(n) => {
                r.append(n.as_str());
            },
        }
        proof {
            assert(sub.last() == part_text(ps@[i as int]@));
            if i == lo {
                assert(sub.len() == 1);
            }
            assert(r@ =~= join_names(sub));
        }
        i = i + 1;
    }
    assert(pieces_view(ps@).subrange(lo as int, hi as int).map_values(|p: PathPart| part_text(p))
        =~= tv.subrange(lo as int, hi as int));
    r
}

/// The parent of `s` (see [`parent_of`]).
pub fn path_parent(s: &str) -> (r: Option<String>)
    ensures
        opt_seq(r) == parent_of(s@),
{
    let ps = path_parts(s);
    let n = ps.len();
    if n == 0 {
        return None;
    }
    if let PathPiece::Root = &ps[n - 1] {
        return None;
    }
    let ghost pv = pieces_view(ps@);
    let ghost kept = pv.drop_last();
    proof {
        assert(kept =~= pv.subrange(0, n - 1));
    }
    if n - 1 > 0 {
        if let PathPiece::Root = &ps[0] {
            let body = join_part_texts(&ps, 1, n - 1);
            let mut r = String::new();
            push_char(&mut r, '/');
            r.append(body.as_str());
            proof {
                assert(kept[0] == PathPart::Root);
                assert(kept.drop_first() =~= pv.subrange(1, n - 1));
                assert(r@ =~= seq!['/'] + body@);
            }
            return Some(r);
        }
    }
    let body = join_part_texts(&ps, 0, n - 1);
    Some(body)
}

/// View of an optional string.
pub open spec fn opt_seq(o: Option<String>) -> Option<Seq<char>> {
    match o {
        Some(s) => Some(s@),
        None => None,
    }
}

} // verus!
