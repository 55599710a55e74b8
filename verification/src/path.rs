//! A model of Unix file paths, kept as strings.
//!
//! Paths are split into components the way `std::path::Path::components`
//! does on Unix: a leading `/` is the root, empty segments and interior `.`
//! segments vanish, a leading `.` segment of a relative path is the current
//! directory, and `..` is the parent directory. The operations below
//! (prefix tests, prefix stripping, parent, file name, extension, joining)
//! are stated over that component sequence.

use vstd::prelude::*;
use crate::text::{chars_of, chars_eq, string_of};

verus! {

/// One component of a path.
pub enum Comp {
    Root,
    Cur,
    Parent,
    Normal(Seq<char>),
}

/// The pieces of `s` between occurrences of `sep`, empty pieces included
/// (the same pieces that `str::split` yields).
pub open spec fn split_on(s: Seq<char>, sep: char) -> Seq<Seq<char>>
    decreases s.len(),
{
    if s.len() == 0 {
        seq![Seq::<char>::empty()]
    } else {
        let prev = split_on(s.drop_last(), sep);
        if s.last() == sep {
            prev.push(Seq::<char>::empty())
        } else {
            prev.update(prev.len() - 1, prev.last().push(s.last()))
        }
    }
}

pub proof fn lemma_split_on_nonempty(s: Seq<char>, sep: char)
    ensures
        split_on(s, sep).len() >= 1,
    decreases s.len(),
{
    if s.len() > 0 {
        lemma_split_on_nonempty(s.drop_last(), sep);
    }
}

pub open spec fn dot() -> Seq<char> {
    seq!['.']
}

pub open spec fn dot_dot() -> Seq<char> {
    seq!['.', '.']
}

/// The component a non-leading segment stands for, if any.
pub open spec fn comp_of_piece(p: Seq<char>) -> Seq<Comp> {
    if p.len() == 0 || p == dot() {
        Seq::empty()
    } else if p == dot_dot() {
        seq![Comp::Parent]
    } else {
        seq![Comp::Normal(p)]
    }
}

pub open spec fn comps_of_pieces(ps: Seq<Seq<char>>) -> Seq<Comp>
    decreases ps.len(),
{
    if ps.len() == 0 {
        Seq::empty()
    } else {
        comps_of_pieces(ps.drop_last()) + comp_of_piece(ps.last())
    }
}

pub open spec fn is_absolute(s: Seq<char>) -> bool {
    s.len() > 0 && s[0] == '/'
}

/// The components of the path `s`.
pub open spec fn components(s: Seq<char>) -> Seq<Comp> {
    let ps = split_on(s, '/');
    if is_absolute(s) {
        seq![Comp::Root] + comps_of_pieces(ps.drop_first())
    } else if ps[0] == dot() {
        seq![Comp::Cur] + comps_of_pieces(ps.drop_first())
    } else {
        comps_of_pieces(ps)
    }
}

/// The text a component contributes to a rendered path.
pub open spec fn comp_text(c: Comp) -> Seq<char> {
    match c {
        Comp::Root => seq!['/'],
        Comp::Cur => dot(),
        Comp::Parent => dot_dot(),
        Comp::Normal(t) => t,
    }
}

/// Appending `t` to the path text `buf` the way `PathBuf::push` does for a
/// relative `t`: a separator goes between unless `buf` is empty or already
/// ends with one.
pub open spec fn push_text(buf: Seq<char>, t: Seq<char>) -> Seq<char> {
    if buf.len() == 0 || buf.last() == '/' {
        buf + t
    } else {
        buf + seq!['/'] + t
    }
}

/// The path text made of the components `cs`, in order.
pub open spec fn render(cs: Seq<Comp>) -> Seq<char>
    decreases cs.len(),
{
    if cs.len() == 0 {
        Seq::empty()
    } else {
        push_text(render(cs.drop_last()), comp_text(cs.last()))
    }
}

/// `PathBuf::join`: an absolute `p` replaces `base`, otherwise `p` is
/// appended after a separator.
pub open spec fn join(base: Seq<char>, p: Seq<char>) -> Seq<char> {
    if is_absolute(p) {
        p
    } else {
        push_text(base, p)
    }
}

/// Component-wise prefix test (`Path::starts_with`).
pub open spec fn starts_with(p: Seq<char>, base: Seq<char>) -> bool {
    components(base).len() <= components(p).len() && components(p).take(
        components(base).len() as int,
    ) == components(base)
}

/// `Path::strip_prefix`: the rest of `p` after the components of `base`.
pub open spec fn strip_prefix(p: Seq<char>, base: Seq<char>) -> Option<Seq<char>> {
    if starts_with(p, base) {
        Some(render(components(p).skip(components(base).len() as int)))
    } else {
        None
    }
}

/// `Path::parent`: the path without its last component, unless that
/// component is the root or there is none.
pub open spec fn parent(p: Seq<char>) -> Option<Seq<char>> {
    let cs = components(p);
    if cs.len() > 0 && !(cs.last() is Root) {
        Some(render(cs.drop_last()))
    } else {
        None
    }
}

/// `Path::file_name`: the last component when it is a normal name.
pub open spec fn file_name(p: Seq<char>) -> Option<Seq<char>> {
    let cs = components(p);
    if cs.len() > 0 && cs.last() is Normal {
        Some(cs.last()->Normal_0)
    } else {
        None
    }
}

/// Index of the last occurrence of `c` in `s`, if any.
pub open spec fn last_index_of(s: Seq<char>, c: char) -> Option<int>
    decreases s.len(),
{
    if s.len() == 0 {
        None
    } else if s.last() == c {
        Some(s.len() - 1)
    } else {
        last_index_of(s.drop_last(), c)
    }
}

/// The extension of a file name (`Path::extension`): the text after the
/// last `.`, unless there is no `.` or the only one leads the name.
pub open spec fn name_extension(name: Seq<char>) -> Option<Seq<char>> {
    match last_index_of(name, '.') {
        None => None,
        Some(k) => if k == 0 {
            None
        } else {
            Some(name.skip(k + 1))
        },
    }
}

pub open spec fn extension(p: Seq<char>) -> Option<Seq<char>> {
    match file_name(p) {
        None => None,
        Some(n) => name_extension(n),
    }
}

/// An executable path component.
pub enum PathComponent {
    Root,
    Cur,
    Parent,
    Normal(Vec<char>),
}

impl View for PathComponent {
    type V = Comp;

    open spec fn view(&self) -> Comp {
        match self {
            PathComponent::Root => Comp::Root,
            PathComponent::Cur => Comp::Cur,
            PathComponent::Parent => Comp::Parent,
            PathComponent::Normal(t) => Comp::Normal(t@),
        }
    }
}

pub open spec fn comps_view(v: Seq<PathComponent>) -> Seq<Comp> {
    v.map_values(|c: PathComponent| c@)
}

/// The character sequences held by a vector of character vectors.
pub open spec fn pieces_view(v: Seq<Vec<char>>) -> Seq<Seq<char>> {
    v.map_values(|x: Vec<char>| x@)
}

/// The pieces of `s` between occurrences of `sep`.
pub fn split_chars(s: &Vec<char>, sep: char) -> (ps: Vec<Vec<char>>)
    ensures
        pieces_view(ps@) == split_on(s@, sep),
{
    let mut ps: Vec<Vec<char>> = Vec::new();
    let mut cur: Vec<char> = Vec::new();
    let mut i: usize = 0;
    while i < s.len()
        invariant
            i <= s.len(),
            pieces_view(ps@).push(cur@) == split_on(s@.take(i as int), sep),
        decreases s.len() - i,
    {
        let c = s[i];
        let ghost before = s@.take(i as int);
        let ghost old_ps = pieces_view(ps@);
        let ghost old_cur = cur@;
        assert(s@.take(i + 1 as int).drop_last() == before);
        assert(s@.take(i + 1 as int).last() == c);
        if c == sep {
            ps.push(cur);
            cur = Vec::new();
            assert(pieces_view(ps@) =~= old_ps.push(old_cur));
        } else {
            cur.push(c);
            assert(old_ps.push(old_cur).update(old_ps.len() as int, old_cur.push(c)) =~= old_ps.push(
                cur@,
            ));
        }
        i += 1;
        assert(pieces_view(ps@).push(cur@) =~= split_on(s@.take(i as int), sep));
    }
    assert(s@.take(s.len() as int) == s@);
    let ghost old_ps = pieces_view(ps@);
    let ghost old_cur = cur@;
    ps.push(cur);
    assert(pieces_view(ps@) =~= old_ps.push(old_cur));
    ps
}

pub fn is_dot(p: &Vec<char>) -> (r: bool)
    ensures
        r == (p@ == dot()),
{
    let r = p.len() == 1 && p[0] == '.';
    assert(r ==> p@ =~= dot());
    r
}

pub fn is_dot_dot(p: &Vec<char>) -> (r: bool)
    ensures
        r == (p@ == dot_dot()),
{
    let r = p.len() == 2 && p[0] == '.' && p[1] == '.';
    assert(r ==> p@ =~= dot_dot());
    r
}

/// The components of the path held in `s`.
pub fn components_of(s: &Vec<char>) -> (cs: Vec<PathComponent>)
    ensures
        comps_view(cs@) == components(s@),
{
    let ps = split_chars(s, '/');
    proof {
        lemma_split_on_nonempty(s@, '/');
    }
    let mut cs: Vec<PathComponent> = Vec::new();
    let abs = s.len() > 0 && s[0] == '/';
    let mut start: usize = 0;
    if abs {
        cs.push(PathComponent::Root);
        start = 1;
    } else if is_dot(&ps[0]) {
        cs.push(PathComponent::Cur);
        start = 1;
    }
    let ghost head = comps_view(cs@);
    let ghost rest = pieces_view(ps@).skip(start as int);
    assert(start == 1 ==> rest == pieces_view(ps@).drop_first());
    assert(start == 0 ==> rest == pieces_view(ps@));
    let mut i: usize = start;
    while i < ps.len()
        invariant
            start <= i <= ps.len(),
            pieces_view(ps@) == split_on(s@, '/'),
            rest == pieces_view(ps@).skip(start as int),
            comps_view(cs@) == head + comps_of_pieces(rest.take(i - start)),
        decreases ps.len() - i,
    {
        let p = &ps[i];
        assert(rest.take(i + 1 - start).drop_last() == rest.take(i - start));
        assert(rest.take(i + 1 - start).last() == p@);
        let ghost old_cs = comps_view(cs@);
        assert(comps_of_pieces(rest.take(i + 1 - start)) == comps_of_pieces(rest.take(i - start))
            + comp_of_piece(p@));
        if p.len() == 0 || is_dot(p) {
            assert(comp_of_piece(p@) =~= Seq::<Comp>::empty());
            assert(old_cs + comp_of_piece(p@) =~= old_cs);
        } else if is_dot_dot(p) {
            cs.push(PathComponent::Parent);
            assert(comps_view(cs@) =~= old_cs + comp_of_piece(p@));
        } else {
            let q = p.clone();
            assert(q@ =~= p@);
            cs.push(PathComponent::Normal(q));
            assert(comps_view(cs@) =~= old_cs + comp_of_piece(p@));
        }
        i += 1;
        assert(comps_view(cs@) =~= head + comps_of_pieces(rest.take(i - start)));
    }
    assert(rest.take(ps.len() - start) == rest);
    cs
}


/// Appends the characters of `t` to `buf`.
pub fn append_chars(buf: &mut Vec<char>, t: &Vec<char>)
    ensures
        final(buf)@ == old(buf)@ + t@,
{
    let mut i: usize = 0;
    while i < t.len()
        invariant
            i <= t.len(),
            buf@ == old(buf)@ + t@.take(i as int),
        decreases t.len() - i,
    {
        buf.push(t[i]);
        i += 1;
        assert(buf@ =~= old(buf)@ + t@.take(i as int));
    }
    assert(t@.take(t.len() as int) == t@);
}

/// `push_text` on character vectors.
pub fn push_text_chars(buf: &mut Vec<char>, t: &Vec<char>)
    ensures
        final(buf)@ == push_text(old(buf)@, t@),
{
    if buf.len() == 0 || buf[buf.len() - 1] == '/' {
        append_chars(buf, t);
    } else {
        buf.push('/');
        append_chars(buf, t);
    }
}

/// The text a component contributes, as characters.
pub fn comp_chars(c: &PathComponent) -> (t: Vec<char>)
    ensures
        t@ == comp_text(c@),
{
    match c {
        PathComponent::Root => {
            let mut t = Vec::new();
            t.push('/');
            assert(t@ =~= seq!['/']);
            t
        },
        PathComponent::Cur => {
            let mut t = Vec::new();
            t.push('.');
            assert(t@ =~= dot());
            t
        },
        PathComponent::Parent => {
            let mut t = Vec::new();
            t.push('.');
            t.push('.');
            assert(t@ =~= dot_dot());
            t
        },
        PathComponent::Normal(x) => {
            let t = x.clone();
            assert(t@ =~= x@);
            t
        },
    }
}

/// Renders the components `cs[from..to]` as path text.
pub fn render_range(cs: &Vec<PathComponent>, from: usize, to: usize) -> (r: Vec<char>)
    requires
        from <= to <= cs.len(),
    ensures
        r@ == render(comps_view(cs@).subrange(from as int, to as int)),
{
    let mut buf: Vec<char> = Vec::new();
    let mut i: usize = from;
    while i < to
        invariant
            from <= i <= to <= cs.len(),
            buf@ == render(comps_view(cs@).subrange(from as int, i as int)),
        decreases to - i,
    {
        let t = comp_chars(&cs[i]);
        push_text_chars(&mut buf, &t);
        i += 1;
        assert(comps_view(cs@).subrange(from as int, i as int).drop_last() =~= comps_view(
            cs@,
        ).subrange(from as int, i - 1 as int));
    }
    buf
}

/// Whether two components are the same.
pub fn comp_eq(a: &PathComponent, b: &PathComponent) -> (r: bool)
    ensures
        r == (a@ == b@),
{
    match (a, b) {
        (PathComponent::Root, PathComponent::Root) => true,
        (PathComponent::Cur, PathComponent::Cur) => true,
        (PathComponent::Parent, PathComponent::Parent) => true,
        (PathComponent::Normal(x), PathComponent::Normal(y)) => chars_eq(x, y),
        _ => false,
    }
}

/// Whether the components `pre` are a prefix of the components `cs`.
pub fn comps_prefix(cs: &Vec<PathComponent>, pre: &Vec<PathComponent>) -> (r: bool)
    ensures
        r == (comps_view(pre@).len() <= comps_view(cs@).len() && comps_view(cs@).take(
            comps_view(pre@).len() as int,
        ) == comps_view(pre@)),
{
    if pre.len() > cs.len() {
        return false;
    }
    let mut i: usize = 0;
    while i < pre.len()
        invariant
            i <= pre.len() <= cs.len(),
            forall|j: int| 0 <= j < i ==> cs@[j]@ == pre@[j]@,
        decreases pre.len() - i,
    {
        if !comp_eq(&cs[i], &pre[i]) {
            assert(comps_view(cs@).take(pre.len() as int)[i as int] != comps_view(pre@)[i as int]);
            return false;
        }
        i += 1;
    }
    assert(comps_view(cs@).take(pre.len() as int) =~= comps_view(pre@));
    true
}

/// The path `p` with `q` joined onto it (`Path::join`).
pub fn path_join(p: &str, q: &str) -> (r: String)
    ensures
        r@ == join(p@, q@),
{
    let mut buf = chars_of(p);
    let t = chars_of(q);
    if t.len() > 0 && t[0] == '/' {
        string_of(&t)
    } else {
        push_text_chars(&mut buf, &t);
        string_of(&buf)
    }
}

/// Whether `p` starts with the components of `base` (`Path::starts_with`).
pub fn path_starts_with(p: &str, base: &str) -> (r: bool)
    ensures
        r == starts_with(p@, base@),
{
    let cp = components_of(&chars_of(p));
    let cb = components_of(&chars_of(base));
    comps_prefix(&cp, &cb)
}

/// Whether two paths are equal as paths (`Path` equality): the same
/// components.
pub fn path_eq(p: &str, q: &str) -> (r: bool)
    ensures
        r == (components(p@) == components(q@)),
{
    let cp = components_of(&chars_of(p));
    let cq = components_of(&chars_of(q));
    if cp.len() != cq.len() {
        assert(comps_view(cp@).len() != comps_view(cq@).len());
        return false;
    }
    let r = comps_prefix(&cp, &cq);
    proof {
        if r {
            assert(comps_view(cp@).take(comps_view(cq@).len() as int) =~= comps_view(cp@));
        } else {
            assert(comps_view(cp@).take(comps_view(cq@).len() as int) =~= comps_view(cp@));
        }
    }
    r
}

/// `p` relative to `base` (`Path::strip_prefix`).
pub fn path_strip_prefix(p: &str, base: &str) -> (r: Option<String>)
    ensures
        r matches Some(x) ==> strip_prefix(p@, base@) == Some(x@),
        r is None ==> strip_prefix(p@, base@) is None,
{
    let cp = components_of(&chars_of(p));
    let cb = components_of(&chars_of(base));
    if comps_prefix(&cp, &cb) {
        let rest = render_range(&cp, cb.len(), cp.len());
        assert(comps_view(cp@).subrange(cb.len() as int, cp.len() as int) =~= comps_view(
            cp@,
        ).skip(comps_view(cb@).len() as int));
        Some(string_of(&rest))
    } else {
        None
    }
}

/// The parent of `p` (`Path::parent`).
pub fn path_parent(p: &str) -> (r: Option<String>)
    ensures
        r matches Some(x) ==> parent(p@) == Some(x@),
        r is None ==> parent(p@) is None,
{
    let cp = components_of(&chars_of(p));
    let n = cp.len();
    if n > 0 {
        match &cp[n - 1] {
            PathComponent::Root => None,
            _ => {
                let rest = render_range(&cp, 0, n - 1);
                assert(comps_view(cp@).subrange(0, n - 1) =~= comps_view(cp@).drop_last());
                Some(string_of(&rest))
            },
        }
    } else {
        None
    }
}

/// The final name of `p` (`Path::file_name`).
pub fn path_file_name(p: &str) -> (r: Option<String>)
    ensures
        r matches Some(x) ==> file_name(p@) == Some(x@),
        r is None ==> file_name(p@) is None,
{
    let cp = components_of(&chars_of(p));
    let n = cp.len();
    if n > 0 {
        assert(comps_view(cp@).last() == cp@[n - 1]@);
        match &cp[n - 1] {
            PathComponent::Normal(x) => Some(string_of(x)),
            _ => None,
        }
    } else {
        None
    }
}

pub proof fn lemma_last_index_of_bounds(s: Seq<char>, c: char, k: int)
    requires
        last_index_of(s, c) == Some(k),
    ensures
        0 <= k < s.len(),
        s[k] == c,
    decreases s.len(),
{
    if s.len() > 0 && s.last() != c {
        lemma_last_index_of_bounds(s.drop_last(), c, k);
    }
}

/// Index of the last `c` in `s`.
pub fn last_index_of_char(s: &Vec<char>, c: char) -> (r: Option<usize>)
    ensures
        r matches Some(k) ==> last_index_of(s@, c) == Some(k as int),
        r is None ==> last_index_of(s@, c) is None,
{
    let mut i: usize = s.len();
    assert(s@.take(s.len() as int) =~= s@);
    while i > 0
        invariant
            i <= s.len(),
            last_index_of(s@, c) == last_index_of(s@.take(i as int), c),
        decreases i,
    {
        assert(s@.take(i as int).drop_last() =~= s@.take(i - 1 as int));
        if s[i - 1] == c {
            return Some(i - 1);
        }
        i -= 1;
    }
    None
}

/// The extension of `p` (`Path::extension`).
pub fn path_extension(p: &str) -> (r: Option<String>)
    ensures
        r matches Some(x) ==> extension(p@) == Some(x@),
        r is None ==> extension(p@) is None,
{
    match path_file_name(p) {
        None => None,
        Some(name) => {
            let v = chars_of(name.as_str());
            match last_index_of_char(&v, '.') {
                None => None,
                Some(k) => {
                    proof {
                        lemma_last_index_of_bounds(v@, '.', k as int);
                    }
                    if k == 0 {
                        None
                    } else {
                        let mut t: Vec<char> = Vec::new();
                        let mut i = k + 1;
                        while i < v.len()
                            invariant
                                k + 1 <= i <= v.len(),
                                t@ == v@.subrange(k + 1, i as int),
                            decreases v.len() - i,
                        {
                            t.push(v[i]);
                            i += 1;
                            assert(t@ =~= v@.subrange(k + 1, i as int));
                        }
                        assert(v@.skip(k + 1) =~= v@.subrange(k + 1, v.len() as int));
                        Some(string_of(&t))
                    }
                }
            }
        },
    }
}

/// The number of components of `p`.
pub fn path_component_count(p: &str) -> (n: usize)
    ensures
        n == components(p@).len(),
{
    let cp = components_of(&chars_of(p));
    cp.len()
}

} // verus!
