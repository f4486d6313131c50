//! Slash-separated paths, modelled on `std::path` for Unix.
//!
//! A path is a string; its meaning is its sequence of components
//! (`spec_components`), which is what `Path::components` yields on Unix:
//! a leading root, a leading `.` kept as the current directory, `..` kept as
//! the parent directory, and empty or `.` segments elsewhere dropped.

use vstd::prelude::*;

verus! {

/// One component of a path.
pub enum Component {
    RootDir,
    CurDir,
    ParentDir,
    Normal(String),
}

/// The mathematical value of a `Component`.
pub enum ComponentView {
    RootDir,
    CurDir,
    ParentDir,
    Normal(Seq<char>),
}

impl View for Component {
    type V = ComponentView;

    open spec fn view(&self) -> ComponentView {
        match self {
            Component::RootDir => ComponentView::RootDir,
            Component::CurDir => ComponentView::CurDir,
            Component::ParentDir => ComponentView::ParentDir,
            Component::Normal(s) => ComponentView::Normal(s@),
        }
    }
}

/// The views of a sequence of components.
pub open spec fn views(v: Seq<Component>) -> Seq<ComponentView> {
    v.map_values(|c: Component| c@)
}

/// The pieces of `s` between slashes, in order; there is always at least one.
pub open spec fn segments(s: Seq<char>) -> Seq<Seq<char>>
    decreases s.len(),
{
    if s.len() == 0 {
        seq![Seq::empty()]
    } else {
        let prev = segments(s.drop_last());
        if s.last() == '/' {
            prev.push(Seq::empty())
        } else {
            prev.update(prev.len() - 1, prev.last().push(s.last()))
        }
    }
}

/// The component that a segment stands for, if any: empty and `.`
/// segments stand for none.
pub open spec fn segment_component(seg: Seq<char>) -> Option<ComponentView> {
    if seg.len() == 0 || seg == seq!['.'] {
        None
    } else if seg == seq!['.', '.'] {
        Some(ComponentView::ParentDir)
    } else {
        Some(ComponentView::Normal(seg))
    }
}

pub open spec fn opt_seq(c: Option<ComponentView>) -> Seq<ComponentView> {
    match c {
        Some(c) => seq![c],
        None => Seq::empty(),
    }
}

/// The components that a list of segments stands for.
pub open spec fn normal_components(segs: Seq<Seq<char>>) -> Seq<ComponentView>
    decreases segs.len(),
{
    if segs.len() == 0 {
        Seq::empty()
    } else {
        normal_components(segs.drop_last()) + opt_seq(segment_component(segs.last()))
    }
}

/// A path is absolute when it starts with a slash.
pub open spec fn has_root(s: Seq<char>) -> bool {
    s.len() > 0 && s[0] == '/'
}

/// The leading component of a path, before its segments: the root, or a
/// current directory written as a leading `.` segment.
pub open spec fn lead(root: bool, segs: Seq<Seq<char>>) -> Seq<ComponentView> {
    if root {
        seq![ComponentView::RootDir]
    } else if segs.len() > 0 && segs[0] == seq!['.'] {
        seq![ComponentView::CurDir]
    } else {
        Seq::empty()
    }
}

/// The components of a path.
pub open spec fn spec_components(s: Seq<char>) -> Seq<ComponentView> {
    lead(has_root(s), segments(s)) + normal_components(segments(s))
}

/// `base` is a prefix of `path`, component by component.
pub open spec fn spec_starts_with(path: Seq<char>, base: Seq<char>) -> bool {
    let p = spec_components(path);
    let b = spec_components(base);
    b.len() <= p.len() && p.subrange(0, b.len() as int) == b
}

/// The last component of a path, where it is a normal one.
pub open spec fn spec_file_name(path: Seq<char>) -> Option<Seq<char>> {
    let c = spec_components(path);
    if c.len() > 0 && c.last() is Normal {
        Some(c.last()->Normal_0)
    } else {
        None
    }
}

/// `rel` appended to `base`: an absolute `rel` replaces `base`; otherwise a
/// slash is put between them unless `base` is empty or already ends in one.
pub open spec fn spec_join(base: Seq<char>, rel: Seq<char>) -> Seq<char> {
    if has_root(rel) {
        rel
    } else if base.len() > 0 && base.last() != '/' {
        base + seq!['/'] + rel
    } else {
        base + rel
    }
}

/// `s` without its trailing slashes.
pub open spec fn spec_trim_end_slashes(s: Seq<char>) -> Seq<char>
    decreases s.len(),
{
    if s.len() > 0 && s.last() == '/' {
        spec_trim_end_slashes(s.drop_last())
    } else {
        s
    }
}

/// Appends to `comps` what the segment `path[start..end]` stands for; when it
/// is the first segment of a relative path and reads `.`, the current
/// directory comes first.
fn push_segment(path: &str, start: usize, end: usize, first: bool, root: bool, comps: &mut Vec<Component>)
    requires
        start <= end <= path@.len(),
    ensures
        views(final(comps)@) == views(old(comps)@) + (if first && !root && path@.subrange(
            start as int,
            end as int,
        ) == seq!['.'] {
            seq![ComponentView::CurDir]
        } else {
            Seq::empty()
        }) + opt_seq(segment_component(path@.subrange(start as int, end as int))),
{
    let ghost seg = path@.subrange(start as int, end as int);
    let ghost before = views(comps@);
    let len = end - start;
    let is_dot = len == 1 && path.get_char(start) == '.';
    let is_dot_dot = len == 2 && path.get_char(start) == '.' && path.get_char(start + 1) == '.';
    proof {
        if len == 1 {
            assert(is_dot <==> seg == seq!['.']) by {
                if seg == seq!['.'] {
                    assert(seg[0] == path@[start as int]);
                }
                if is_dot {
                    assert(seg =~= seq!['.']);
                }
            }
        } else {
            assert(seg.len() != 1);
            assert(!is_dot);
        }
        if len == 2 {
            assert(is_dot_dot <==> seg == seq!['.', '.']) by {
                if seg == seq!['.', '.'] {
                    assert(seg[0] == path@[start as int]);
                    assert(seg[1] == path@[start + 1]);
                }
                if is_dot_dot {
                    assert(seg =~= seq!['.', '.']);
                }
            }
        } else {
            assert(seg.len() != 2);
            assert(!is_dot_dot);
        }
    }
    if first && !root && is_dot {
        comps.push(Component::CurDir);
    }
    let ghost mid = views(comps@);
    assert(mid =~= before + (if first && !root && seg == seq!['.'] {
        seq![ComponentView::CurDir]
    } else {
        Seq::empty()
    }));
    if len == 0 || is_dot {
    } else if is_dot_dot {
        comps.push(Component::ParentDir);
    } else {
        let s = path.substring_char(start, end);
        comps.push(Component::Normal(s.to_owned()));
    }
    assert(views(comps@) =~= mid + opt_seq(segment_component(seg)));
}

/// The components of `path`, as `Path::components` yields them on Unix.
pub fn path_components(path: &str) -> (comps: Vec<Component>)
    ensures
        views(comps@) == spec_components(path@),
{
    let n = path.unicode_len();
    let root = n > 0 && path.get_char(0) == '/';
    let mut comps: Vec<Component> = Vec::new();
    if root {
        comps.push(Component::RootDir);
    }
    let mut start: usize = 0;
    let mut i: usize = 0;
    let mut first = true;
    let ghost mut done: Seq<Seq<char>> = Seq::empty();
    assert(path@.take(0) =~= Seq::<char>::empty());
    assert(path@.subrange(0, 0) =~= Seq::<char>::empty());
    assert(views(comps@) =~= lead(root, done) + normal_components(done));
    while i < n
        invariant
            n == path@.len(),
            start <= i <= n,
            root == has_root(path@),
            first == (done.len() == 0),
            segments(path@.take(i as int)) == done.push(path@.subrange(start as int, i as int)),
            views(comps@) == lead(root, done) + normal_components(done),
        decreases n - i,
    {
        let c = path.get_char(i);
        let ghost prev = segments(path@.take(i as int));
        assert(path@.take(i + 1).drop_last() =~= path@.take(i as int));
        assert(path@.take(i + 1).last() == c);
        if c == '/' {
            let ghost seg = path@.subrange(start as int, i as int);
            push_segment(path, start, i, first, root, &mut comps);
            proof {
                let nd = done.push(seg);
                assert(nd.drop_last() =~= done);
                assert(normal_components(nd) == normal_components(done) + opt_seq(
                    segment_component(seg),
                ));
                if done.len() > 0 {
                    assert(nd[0] == done[0]);
                    assert(lead(root, nd) == lead(root, done));
                } else {
                    assert(nd[0] == seg);
                }
                assert(views(comps@) =~= lead(root, nd) + normal_components(nd));
                done = nd;
                assert(path@.subrange(i + 1, i + 1) =~= Seq::<char>::empty());
                assert(segments(path@.take(i + 1)) =~= done.push(
                    path@.subrange(i + 1, i + 1),
                ));
            }
            start = i + 1;
            first = false;
        } else {
            proof {
                assert(path@.subrange(start as int, i + 1) =~= path@.subrange(
                    start as int,
                    i as int,
                ).push(c));
                assert(segments(path@.take(i + 1)) =~= done.push(
                    path@.subrange(start as int, i + 1),
                ));
            }
        }
        i = i + 1;
    }
    let ghost seg = path@.subrange(start as int, n as int);
    push_segment(path, start, n, first, root, &mut comps);
    proof {
        assert(path@.take(n as int) =~= path@);
        let all = done.push(seg);
        assert(segments(path@) == all);
        assert(all.drop_last() =~= done);
        assert(normal_components(all) == normal_components(done) + opt_seq(segment_component(seg)));
        if done.len() > 0 {
            assert(all[0] == done[0]);
        } else {
            assert(all[0] == seg);
        }
        assert(views(comps@) =~= lead(root, all) + normal_components(all));
    }
    comps
}


fn component_eq(a: &Component, b: &Component) -> (r: bool)
    ensures
        r == (a@ == b@),
{
    match (a, b) {
        (Component::RootDir, Component::RootDir) => true,
        (Component::CurDir, Component::CurDir) => true,
        (Component::ParentDir, Component::ParentDir) => true,
        (Component::Normal(x), Component::Normal(y)) => *x == *y,
        _ => false,
    }
}

/// Whether `base` is a prefix of `path`, whole components only, as
/// `Path::starts_with` decides it.
pub fn starts_with(path: &str, base: &str) -> (r: bool)
    ensures
        r == spec_starts_with(path@, base@),
{
    let p = path_components(path);
    let b = path_components(base);
    if b.len() > p.len() {
        return false;
    }
    let mut i: usize = 0;
    while i < b.len()
        invariant
            b.len() <= p.len(),
            i <= b.len(),
            views(p@) == spec_components(path@),
            views(b@) == spec_components(base@),
            forall|j: int| 0 <= j < i ==> views(p@)[j] == views(b@)[j],
        decreases b.len() - i,
    {
        if !component_eq(&p[i], &b[i]) {
            assert(views(p@)[i as int] != views(b@)[i as int]);
            assert(views(p@).subrange(0, b.len() as int)[i as int] != views(b@)[i as int]);
            return false;
        }
        i = i + 1;
    }
    assert(views(p@).subrange(0, b.len() as int) =~= views(b@));
    true
}

/// The last component of `path` where it is a normal one, as
/// `Path::file_name` gives it; `None` for a path that ends in the root, in
/// a leading `.`, in `..`, or that is empty.
pub fn file_name(path: &str) -> (r: Option<String>)
    ensures
        r matches Some(s) ==> spec_file_name(path@) == Some(s@),
        r is None ==> spec_file_name(path@) is None,
{
    let comps = path_components(path);
    let n = comps.len();
    if n == 0 {
        return None;
    }
    assert(views(comps@).last() == comps@[n - 1]@);
    match &comps[n - 1] {
        Component::Normal(s) => Some(s.clone()),
        _ => None,
    }
}

/// `rel` appended to `base`, as `Path::join` does it on Unix.
pub fn join(base: &str, rel: &str) -> (r: String)
    ensures
        r@ == spec_join(base@, rel@),
{
    let rn = rel.unicode_len();
    if rn > 0 && rel.get_char(0) == '/' {
        return rel.to_owned();
    }
    let mut r = base.to_owned();
    let bn = base.unicode_len();
    if bn > 0 && base.get_char(bn - 1) != '/' {
        r.append("/");
        proof {
            reveal_strlit("/");
        }
    }
    r.append(rel);
    r
}

/// `s` without its trailing slashes, as `str::trim_end_matches('/')` gives it.
pub fn trim_end_slashes(s: &str) -> (r: String)
    ensures
        r@ == spec_trim_end_slashes(s@),
{
    let n = s.unicode_len();
    let mut end = n;
    assert(s@.take(n as int) =~= s@);
    while end > 0 && s.get_char(end - 1) == '/'
        invariant
            n == s@.len(),
            end <= n,
            spec_trim_end_slashes(s@) == spec_trim_end_slashes(s@.take(end as int)),
        decreases end,
    {
        assert(s@.take(end - 1) =~= s@.take(end as int).drop_last());
        end = end - 1;
    }
    assert(s@.take(n as int) =~= s@);
    let t = s.substring_char(0, end);
    assert(t@ =~= s@.take(end as int));
    t.to_owned()
}


proof fn lemma_segments_nonempty(s: Seq<char>)
    ensures
        segments(s).len() >= 1,
    decreases s.len(),
{
    if s.len() > 0 {
        lemma_segments_nonempty(s.drop_last());
    }
}

/// Splitting at a slash splits the segments.
proof fn lemma_segments_split(a: Seq<char>, b: Seq<char>)
    ensures
        segments(a + seq!['/'] + b) == segments(a) + segments(b),
    decreases b.len(),
{
    let ab = a + seq!['/'] + b;
    if b.len() == 0 {
        assert(ab =~= a.push('/'));
        assert(ab.drop_last() =~= a);
        assert(segments(a) + segments(b) =~= segments(a).push(Seq::empty()));
    } else {
        let b0 = b.drop_last();
        lemma_segments_split(a, b0);
        lemma_segments_nonempty(b0);
        assert(ab.drop_last() =~= a + seq!['/'] + b0);
        assert(ab.last() == b.last());
        if b.last() == '/' {
            assert(segments(ab) =~= segments(a) + segments(b));
        } else {
            let p = segments(b0);
            assert((segments(a) + p).update(
                segments(a).len() + p.len() - 1,
                p.last().push(b.last()),
            ) =~= segments(a) + p.update(p.len() - 1, p.last().push(b.last())));
            assert(segments(ab) =~= segments(a) + segments(b));
        }
    }
}

proof fn lemma_normal_components_single(seg: Seq<char>)
    ensures
        normal_components(seq![seg]) == opt_seq(segment_component(seg)),
{
    let x = seq![seg];
    assert(x.drop_last() =~= Seq::<Seq<char>>::empty());
    assert(normal_components(Seq::<Seq<char>>::empty()) == Seq::<ComponentView>::empty());
    assert(x.last() == seg);
    assert(normal_components(x) =~= opt_seq(segment_component(seg)));
}

proof fn lemma_normal_components_concat(x: Seq<Seq<char>>, y: Seq<Seq<char>>)
    ensures
        normal_components(x + y) == normal_components(x) + normal_components(y),
    decreases y.len(),
{
    if y.len() == 0 {
        assert(x + y =~= x);
        assert(normal_components(x) + normal_components(y) =~= normal_components(x));
    } else {
        lemma_normal_components_concat(x, y.drop_last());
        assert((x + y).drop_last() =~= x + y.drop_last());
        assert((x + y).last() == y.last());
        assert(normal_components(x + y) =~= normal_components(x) + normal_components(y));
    }
}

/// Joining a relative path to a non-empty base appends the relative path's
/// components, a leading `.` and empty segments dropped, to the base's.
pub proof fn lemma_join_components(base: Seq<char>, rel: Seq<char>)
    requires
        !has_root(rel),
        base.len() > 0,
    ensures
        spec_components(spec_join(base, rel)) == spec_components(base) + normal_components(
            segments(rel),
        ),
{
    let j = spec_join(base, rel);
    let a = if base.last() == '/' {
        base.drop_last()
    } else {
        base
    };
    assert(j =~= a + seq!['/'] + rel);
    lemma_segments_split(a, rel);
    lemma_segments_nonempty(a);
    lemma_segments_nonempty(rel);
    lemma_normal_components_concat(segments(a), segments(rel));
    if base.last() == '/' {
        assert(a + seq!['/'] =~= base);
        assert(base.drop_last() =~= a);
        assert(segments(base) == segments(a).push(Seq::empty()));
        assert(segments(a).push(Seq::empty()) =~= segments(a) + seq![Seq::<char>::empty()]);
        lemma_normal_components_concat(segments(a), seq![Seq::<char>::empty()]);
        lemma_normal_components_single(Seq::empty());
        assert(opt_seq(segment_component(Seq::empty())) =~= Seq::<ComponentView>::empty());
        assert(normal_components(segments(base)) =~= normal_components(segments(a)));
        assert(segments(base)[0] == segments(a)[0]);
        if a.len() > 0 {
            assert(j[0] == a[0]);
            assert(base[0] == a[0]);
        } else {
            assert(j[0] == '/');
            assert(base[0] == '/');
        }
    } else {
        assert(j[0] == base[0]);
    }
    assert(segments(j)[0] == segments(base)[0]);
    assert(has_root(j) == has_root(base));
    assert(spec_components(j) =~= spec_components(base) + normal_components(segments(rel)));
}

/// Every path starts with itself.
pub proof fn lemma_starts_with_reflexive(p: Seq<char>)
    ensures
        spec_starts_with(p, p),
{
    assert(spec_components(p).subrange(0, spec_components(p).len() as int) =~= spec_components(p));
}

/// A prefix of a prefix is a prefix.
pub proof fn lemma_starts_with_transitive(a: Seq<char>, b: Seq<char>, c: Seq<char>)
    requires
        spec_starts_with(a, b),
        spec_starts_with(b, c),
    ensures
        spec_starts_with(a, c),
{
    let (ca, cb, cc) = (spec_components(a), spec_components(b), spec_components(c));
    assert(ca.subrange(0, cc.len() as int) =~= cb.subrange(0, cc.len() as int));
}

/// A path joined with a relative path starts with it.
pub proof fn lemma_join_starts_with_base(base: Seq<char>, rel: Seq<char>)
    requires
        !has_root(rel),
    ensures
        spec_starts_with(spec_join(base, rel), base),
{
    if base.len() > 0 {
        lemma_join_components(base, rel);
        let cb = spec_components(base);
        assert((cb + normal_components(segments(rel))).subrange(0, cb.len() as int) =~= cb);
    } else {
        assert(base =~= Seq::<char>::empty());
        assert(segments(base) =~= seq![Seq::<char>::empty()]);
        lemma_normal_components_single(Seq::empty());
        assert(opt_seq(segment_component(Seq::empty())) =~= Seq::<ComponentView>::empty());
        assert(Seq::<char>::empty() != seq!['.']) by {
            assert(seq!['.'].len() == 1);
        }
        assert(spec_components(base) =~= Seq::<ComponentView>::empty());
        assert(spec_components(spec_join(base, rel)).subrange(0, 0) =~= spec_components(base));
    }
}

/// A name made of a single normal segment: not empty, without a slash, and
/// neither `.` nor `..`.
pub open spec fn is_plain_name(name: Seq<char>) -> bool {
    &&& name.len() > 0
    &&& forall|i: int| 0 <= i < name.len() ==> name[i] != '/'
    &&& name != seq!['.']
    &&& name != seq!['.', '.']
}

proof fn lemma_segments_no_slash(s: Seq<char>)
    requires
        forall|i: int| 0 <= i < s.len() ==> s[i] != '/',
    ensures
        segments(s) == seq![s],
    decreases s.len(),
{
    if s.len() == 0 {
        assert(s =~= Seq::<char>::empty());
        assert(segments(s) =~= seq![s]);
    } else {
        lemma_segments_no_slash(s.drop_last());
        assert(s.drop_last().push(s.last()) =~= s);
        assert(s[s.len() - 1] != '/');
        let prev = segments(s.drop_last());
        assert(prev.len() == 1);
        assert(prev.last() == s.drop_last());
        assert(prev.update(0, s.drop_last().push(s.last())) =~= seq![s]);

        assert(segments(s) =~= seq![s]);
    }
}

/// The file name of a path joined with a plain name is that name.
pub proof fn lemma_file_name_of_join(base: Seq<char>, name: Seq<char>)
    requires
        is_plain_name(name),
    ensures
        spec_file_name(spec_join(base, name)) == Some(name),
{
    lemma_segments_no_slash(name);
    lemma_normal_components_single(name);
    assert(normal_components(seq![name]) =~= seq![ComponentView::Normal(name)]);
    assert(!has_root(name));
    if base.len() > 0 {
        lemma_join_components(base, name);
    } else {
        assert(spec_join(base, name) =~= name);
        assert(spec_components(name) =~= seq![ComponentView::Normal(name)]);
    }
}


/// Trimming leaves a prefix of the path that does not end in a slash, and
/// only slashes were dropped.
pub proof fn lemma_trim_end_slashes(s: Seq<char>)
    ensures
        spec_trim_end_slashes(s).len() <= s.len(),
        spec_trim_end_slashes(s) == s.take(spec_trim_end_slashes(s).len() as int),
        spec_trim_end_slashes(s).len() == 0 || spec_trim_end_slashes(s).last() != '/',
        forall|i: int| spec_trim_end_slashes(s).len() <= i < s.len() ==> s[i] == '/',
    decreases s.len(),
{
    if s.len() > 0 && s.last() == '/' {
        lemma_trim_end_slashes(s.drop_last());
        let t = spec_trim_end_slashes(s);
        assert(s.drop_last().take(t.len() as int) =~= s.take(t.len() as int));
        assert forall|i: int| t.len() <= i < s.len() implies s[i] == '/' by {
            if i < s.len() - 1 {
                assert(s.drop_last()[i] == s[i]);
            }
        }
    } else {
        assert(s.take(s.len() as int) =~= s);
    }
}


proof fn lemma_components_of_empty()
    ensures
        spec_components(Seq::empty()) == Seq::<ComponentView>::empty(),
{
    let e = Seq::<char>::empty();
    assert(segments(e) =~= seq![Seq::<char>::empty()]);
    lemma_normal_components_single(Seq::empty());
    assert(opt_seq(segment_component(Seq::empty())) =~= Seq::<ComponentView>::empty());
    assert(Seq::<char>::empty() != seq!['.']) by {
        assert(seq!['.'].len() == 1);
    }
    assert(spec_components(e) =~= Seq::<ComponentView>::empty());
}

/// Joining a plain name adds exactly that name as one more component.
pub proof fn lemma_join_plain_name(base: Seq<char>, name: Seq<char>)
    requires
        is_plain_name(name),
    ensures
        spec_components(spec_join(base, name)) == spec_components(base) + seq![
            ComponentView::Normal(name),
        ],
{
    lemma_segments_no_slash(name);
    lemma_normal_components_single(name);
    assert(normal_components(seq![name]) =~= seq![ComponentView::Normal(name)]);
    assert(!has_root(name));
    if base.len() > 0 {
        lemma_join_components(base, name);
    } else {
        lemma_components_of_empty();
        assert(base =~= Seq::<char>::empty());
        assert(spec_join(base, name) =~= name);
        assert(spec_components(name) =~= seq![ComponentView::Normal(name)]);
        assert(spec_components(base) + seq![ComponentView::Normal(name)] =~= seq![
            ComponentView::Normal(name),
        ]);
    }
}

/// `base` is a prefix of `path` exactly when each component of `base` is
/// the component of `path` at the same place.
pub proof fn lemma_starts_with_is_componentwise(path: Seq<char>, base: Seq<char>)
    ensures
        spec_starts_with(path, base) <==> (spec_components(base).len() <= spec_components(path).len()
            && forall|i: int|
            0 <= i < spec_components(base).len() ==> #[trigger] spec_components(path)[i]
                == spec_components(base)[i]),
{
    let p = spec_components(path);
    let b = spec_components(base);
    if b.len() <= p.len() && forall|i: int| 0 <= i < b.len() ==> #[trigger] p[i] == b[i] {
        assert(p.subrange(0, b.len() as int) =~= b);
    }
    if spec_starts_with(path, base) {
        assert forall|i: int| 0 <= i < b.len() implies #[trigger] p[i] == b[i] by {
            assert(p.subrange(0, b.len() as int)[i] == p[i]);
        }
    }
}

/// Two paths that start with each other have the same components.
pub proof fn lemma_starts_with_antisymmetric(a: Seq<char>, b: Seq<char>)
    requires
        spec_starts_with(a, b),
        spec_starts_with(b, a),
    ensures
        spec_components(a) == spec_components(b),
{
    let (ca, cb) = (spec_components(a), spec_components(b));
    assert(ca.len() == cb.len());
    assert(ca =~= ca.subrange(0, cb.len() as int));
}

/// Entries of a directory with different names lie in different subtrees:
/// neither starts with the other, whatever the letters' case.
pub proof fn lemma_distinct_names_are_apart(base: Seq<char>, x: Seq<char>, y: Seq<char>)
    requires
        is_plain_name(x),
        is_plain_name(y),
        x != y,
    ensures
        !spec_starts_with(spec_join(base, x), spec_join(base, y)),
{
    lemma_join_plain_name(base, x);
    lemma_join_plain_name(base, y);
    let cb = spec_components(base);
    let cx = spec_components(spec_join(base, x));
    let cy = spec_components(spec_join(base, y));
    assert(cx[cb.len() as int] == ComponentView::Normal(x));
    assert(cy[cb.len() as int] == ComponentView::Normal(y));
    if spec_starts_with(spec_join(base, x), spec_join(base, y)) {
        assert(cx.subrange(0, cy.len() as int)[cb.len() as int] == cx[cb.len() as int]);
    }
}


proof fn lemma_segments_have_no_slash(s: Seq<char>)
    ensures
        forall|k: int, i: int|
            0 <= k < segments(s).len() && 0 <= i < segments(s)[k].len() ==> #[trigger] segments(
                s,
            )[k][i] != '/',
    decreases s.len(),
{
    lemma_segments_nonempty(s);
    if s.len() > 0 {
        lemma_segments_have_no_slash(s.drop_last());
        lemma_segments_nonempty(s.drop_last());
        let prev = segments(s.drop_last());
        if s.last() != '/' {
            assert forall|k: int, i: int|
                0 <= k < segments(s).len() && 0 <= i < segments(s)[k].len() implies #[trigger] segments(
                s,
            )[k][i] != '/' by {
                if k == prev.len() - 1 {
                    if i < prev.last().len() {
                        assert(segments(s)[k][i] == prev[k][i]);
                    }
                } else {
                    assert(segments(s)[k] == prev[k]);
                }
            }
        } else {
            assert forall|k: int, i: int|
                0 <= k < segments(s).len() && 0 <= i < segments(s)[k].len() implies #[trigger] segments(
                s,
            )[k][i] != '/' by {
                if k < prev.len() {
                    assert(segments(s)[k] == prev[k]);
                }
            }
        }
    }
}

proof fn lemma_normal_components_plain(segs: Seq<Seq<char>>)
    requires
        forall|k: int, i: int| 0 <= k < segs.len() && 0 <= i < segs[k].len() ==> #[trigger] segs[k][i] != '/',
    ensures
        forall|j: int|
            0 <= j < normal_components(segs).len() ==> (#[trigger] normal_components(segs)[j] is Normal
                && is_plain_name(normal_components(segs)[j]->Normal_0)) || normal_components(segs)[j]
                is ParentDir,
    decreases segs.len(),
{
    if segs.len() > 0 {
        lemma_normal_components_plain(segs.drop_last());
        let a = normal_components(segs.drop_last());
        let last = segs.last();
        assert forall|i: int| 0 <= i < last.len() implies last[i] != '/' by {
            assert(segs[segs.len() - 1][i] != '/');
        }
        assert forall|j: int| 0 <= j < normal_components(segs).len() implies (
        #[trigger] normal_components(segs)[j] is Normal && is_plain_name(
            normal_components(segs)[j]->Normal_0,
        )) || normal_components(segs)[j] is ParentDir by {
            if j < a.len() {
                assert(normal_components(segs)[j] == a[j]);
            } else {
                assert(normal_components(segs)[j] == opt_seq(segment_component(last))[j - a.len()]);
            }
        }
    }
}

/// The components of a path are well formed: the root or a leading `.` may
/// only come first, the root exactly when the path starts with a slash, and
/// every other component is `..` or a plain name.
pub proof fn lemma_components_well_formed(s: Seq<char>)
    ensures
        forall|j: int|
            0 <= j < spec_components(s).len() ==> (#[trigger] spec_components(s)[j] is RootDir
                || spec_components(s)[j] is CurDir ==> j == 0),
        forall|j: int|
            0 <= j < spec_components(s).len() ==> (#[trigger] spec_components(s)[j] is Normal
                ==> is_plain_name(spec_components(s)[j]->Normal_0)),
        has_root(s) <==> (spec_components(s).len() > 0 && spec_components(s)[0] is RootDir),
{
    lemma_segments_have_no_slash(s);
    lemma_normal_components_plain(segments(s));
    let l = lead(has_root(s), segments(s));
    let n = normal_components(segments(s));
    assert(spec_components(s) == l + n);
    assert forall|j: int| 0 <= j < spec_components(s).len() implies (
    #[trigger] spec_components(s)[j] is RootDir || spec_components(s)[j] is CurDir ==> j == 0)
        && (spec_components(s)[j] is Normal ==> is_plain_name(spec_components(s)[j]->Normal_0)) by {
        if j >= l.len() {
            assert(spec_components(s)[j] == n[j - l.len()]);
        }
    }
    if spec_components(s).len() > 0 && spec_components(s)[0] is RootDir {
        if l.len() == 0 {
            assert(spec_components(s)[0] == n[0]);
        }
    }
}

/// A file name, where there is one, is a plain name; and a path that ends in
/// `..` has none.
pub proof fn lemma_file_name_is_plain(p: Seq<char>, base: Seq<char>)
    ensures
        spec_file_name(p) matches Some(n) ==> is_plain_name(n),
        spec_file_name(spec_join(base, seq!['.', '.'])) is None,
{
    lemma_components_well_formed(p);
    let c = spec_components(p);
    if c.len() > 0 && c.last() is Normal {
        assert(c[c.len() - 1] is Normal);
    }
    let dd = seq!['.', '.'];
    assert(forall|i: int| 0 <= i < dd.len() ==> dd[i] != '/');
    lemma_segments_no_slash(dd);
    lemma_normal_components_single(dd);
    assert(normal_components(seq![dd]) =~= seq![ComponentView::ParentDir]);
    assert(!has_root(dd));
    if base.len() > 0 {
        lemma_join_components(base, dd);
    } else {
        assert(spec_join(base, dd) =~= dd);
        assert(dd != seq!['.']);
        assert(spec_components(dd) =~= seq![ComponentView::ParentDir]);
    }
}

} // verus!
