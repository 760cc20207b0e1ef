//! Path virtualization: guest-visible paths are rebased onto host
//! directories through an insertion-ordered mapping table.
use vstd::prelude::*;
use crate::context::Ctx;
use crate::marshal::{check_utf8, is_utf8, no_zero};
use crate::memory::{bytes_eq, copy_bytes};

verus! {

/// Whether `i` is the first position of `t` whose key is `key`.
pub open spec fn first_key_index(t: Seq<(Seq<u8>, Seq<u8>)>, key: Seq<u8>, i: int) -> bool {
    0 <= i < t.len() && t[i].0 == key && forall|j: int| 0 <= j < i ==> #[trigger] t[j].0 != key
}

/// The value of the first entry of `t` whose key is `key`.
pub open spec fn lookup(t: Seq<(Seq<u8>, Seq<u8>)>, key: Seq<u8>) -> Option<Seq<u8>> {
    if exists|i: int| first_key_index(t, key, i) {
        Some(t[choose|i: int| first_key_index(t, key, i)].1)
    } else {
        None
    }
}

proof fn lemma_lookup_at(t: Seq<(Seq<u8>, Seq<u8>)>, key: Seq<u8>, i: int)
    requires
        first_key_index(t, key, i),
    ensures
        lookup(t, key) == Some(t[i].1),
{
    let c = choose|c: int| first_key_index(t, key, c);
    assert(first_key_index(t, key, c));
    if c < i {
        assert(t[c].0 != key);
    } else if c > i {
        assert(t[i].0 != key);
    }
}

/// The table that maps guest path strings (the key `.` standing for the
/// current directory) to host directories, in insertion order.
pub struct PathMap {
    entries: Vec<(Vec<u8>, Vec<u8>)>,
}

impl View for PathMap {
    type V = Seq<(Seq<u8>, Seq<u8>)>;

    closed spec fn view(&self) -> Seq<(Seq<u8>, Seq<u8>)> {
        self.entries@.map_values(|e: (Vec<u8>, Vec<u8>)| (e.0@, e.1@))
    }
}

impl PathMap {
    /// An empty table.
    pub fn new() -> (r: PathMap)
        ensures
            r@ == Seq::<(Seq<u8>, Seq<u8>)>::empty(),
    {
        let r = PathMap { entries: Vec::new() };
        assert(r@ =~= Seq::<(Seq<u8>, Seq<u8>)>::empty());
        r
    }

    /// Number of entries.
    pub fn len(&self) -> (r: usize)
        ensures
            r == self@.len(),
    {
        self.entries.len()
    }

    /// Position of the first entry whose key is `key`.
    fn find(&self, key: &[u8]) -> (r: Option<usize>)
        ensures
            match r {
                Some(i) => first_key_index(self@, key@, i as int),
                None => forall|j: int| 0 <= j < self@.len() ==> #[trigger] self@[j].0 != key@,
            },
    {
        let mut i: usize = 0;
        while i < self.entries.len()
            invariant
                i <= self@.len(),
                self@.len() == self.entries@.len(),
                forall|j: int| 0 <= j < i ==> #[trigger] self@[j].0 != key@,
            decreases self@.len() - i,
        {
            if bytes_eq(self.entries[i].0.as_slice(), key) {
                return Some(i);
            }
            i = i + 1;
        }
        None
    }

    /// The host directory that `key` maps to.
    pub fn get(&self, key: &[u8]) -> (r: Option<Vec<u8>>)
        ensures
            match r {
                Some(v) => lookup(self@, key@) == Some(v@),
                None => lookup(self@, key@) is None,
            },
    {
        match self.find(key) {
            Some(i) => {
                proof {
                    lemma_lookup_at(self@, key@, i as int);
                }
                Some(copy_bytes(self.entries[i].1.as_slice()))
            },
            None => None,
        }
    }

    /// Maps `key` to `value`: an existing entry for `key` keeps its place
    /// and takes the new value; otherwise the entry is added at the end.
    pub fn insert(&mut self, key: Vec<u8>, value: Vec<u8>)
        ensures
            forall|k: Seq<u8>|
                #[trigger] lookup(final(self)@, k) == if k == key@ {
                    Some(value@)
                } else {
                    lookup(old(self)@, k)
                },
    {
        let ghost t = self@;
        let ghost kv = key@;
        let ghost vv = value@;
        match self.find(key.as_slice()) {
            Some(i) => {
                self.entries.set(i, (key, value));
                let ghost t2 = self@;
                assert(t2 =~= t.update(i as int, (kv, vv)));
                assert forall|k: Seq<u8>| #[trigger]
                    lookup(t2, k) == if k == kv {
                        Some(vv)
                    } else {
                        lookup(t, k)
                    } by {
                    if k == kv {
                        assert(first_key_index(t2, k, i as int));
                        lemma_lookup_at(t2, k, i as int);
                    } else if exists|c: int| first_key_index(t, k, c) {
                        let c = choose|c: int| first_key_index(t, k, c);
                        lemma_lookup_at(t, k, c);
                        assert forall|j: int| 0 <= j < c implies #[trigger] t2[j].0 != k by {
                            assert(t[j].0 != k);
                        }
                        assert(first_key_index(t2, k, c));
                        lemma_lookup_at(t2, k, c);
                    } else {
                        assert forall|c: int| !first_key_index(t2, k, c) by {
                            if first_key_index(t2, k, c) {
                                assert forall|j: int| 0 <= j < c implies #[trigger] t[j].0 != k by {
                                    assert(t2[j].0 != k);
                                }
                                assert(first_key_index(t, k, c));
                            }
                        }
                    }
                }
            },
            None => {
                self.entries.push((key, value));
                let ghost t2 = self@;
                assert(t2 =~= t.push((kv, vv)));
                assert forall|k: Seq<u8>| #[trigger]
                    lookup(t2, k) == if k == kv {
                        Some(vv)
                    } else {
                        lookup(t, k)
                    } by {
                    if k == kv {
                        assert(first_key_index(t2, k, t.len() as int));
                        lemma_lookup_at(t2, k, t.len() as int);
                    } else if exists|c: int| first_key_index(t, k, c) {
                        let c = choose|c: int| first_key_index(t, k, c);
                        lemma_lookup_at(t, k, c);
                        assert(first_key_index(t2, k, c));
                        lemma_lookup_at(t2, k, c);
                    } else {
                        assert forall|c: int| !first_key_index(t2, k, c) by {
                            if first_key_index(t2, k, c) {
                                if c < t.len() {
                                    assert forall|j: int| 0 <= j < c implies #[trigger] t[j].0 != k by {
                                        assert(t2[j].0 != k);
                                    }
                                    assert(first_key_index(t, k, c));
                                }
                            }
                        }
                    }
                }
            },
        }
    }
}


/// The separator of path components, `/`.
pub const SLASH: u8 = 47;

/// `.`, the current directory.
pub const DOT: u8 = 46;

/// The pieces of `p` between separators, empty ones included.
pub open spec fn segments(p: Seq<u8>) -> Seq<Seq<u8>>
    decreases p.len(),
{
    if p.len() == 0 {
        seq![Seq::<u8>::empty()]
    } else {
        let s = segments(p.drop_last());
        if p.last() == SLASH {
            s.push(Seq::<u8>::empty())
        } else {
            s.update(s.len() - 1, s.last().push(p.last()))
        }
    }
}

/// Whether the segment at position `k` is a component: it is not empty, and
/// it is not `.` unless it comes first.
pub open spec fn keeps_segment(s: Seq<u8>, k: int) -> bool {
    s.len() > 0 && (s != seq![DOT] || k == 0)
}

/// The segments of `s` that are components, in order.
pub open spec fn kept_segments(s: Seq<Seq<u8>>) -> Seq<Seq<u8>>
    decreases s.len(),
{
    if s.len() == 0 {
        Seq::empty()
    } else {
        let f = kept_segments(s.drop_last());
        if keeps_segment(s.last(), s.len() - 1) {
            f.push(s.last())
        } else {
            f
        }
    }
}

/// The root component that an absolute path starts with.
pub open spec fn root_of(p: Seq<u8>) -> Seq<Seq<u8>> {
    if p.len() > 0 && p[0] == SLASH {
        seq![seq![SLASH]]
    } else {
        Seq::empty()
    }
}

/// The components of path `p`: the root `/` of an absolute path, then each
/// non-empty piece between separators, where `.` counts only at the start.
pub open spec fn components(p: Seq<u8>) -> Seq<Seq<u8>> {
    root_of(p) + kept_segments(segments(p))
}

/// `acc` with the component `c` appended, a separator between them unless
/// `acc` is empty or ends with one.
pub open spec fn push_component(acc: Seq<u8>, c: Seq<u8>) -> Seq<u8> {
    if acc.len() == 0 {
        c
    } else if acc.last() == SLASH {
        acc + c
    } else {
        acc.push(SLASH) + c
    }
}

/// The path made of the components `cs`.
pub open spec fn join_components(cs: Seq<Seq<u8>>) -> Seq<u8>
    decreases cs.len(),
{
    if cs.len() == 0 {
        Seq::empty()
    } else {
        push_component(join_components(cs.drop_last()), cs.last())
    }
}

/// `rest` joined onto `base`; an absolute `rest` replaces `base`.
pub open spec fn join_path(base: Seq<u8>, rest: Seq<u8>) -> Seq<u8> {
    if rest.len() > 0 && rest[0] == SLASH {
        rest
    } else {
        push_component(base, rest)
    }
}

/// The components that the resolver walks: a path of one component is taken
/// relative to the current directory.
pub open spec fn walked(cs: Seq<Seq<u8>>) -> Seq<Seq<u8>> {
    if cs.len() == 1 {
        seq![seq![DOT]] + cs
    } else {
        cs
    }
}

/// The prefix of the first `k` walked components.
pub open spec fn prefix_key(w: Seq<Seq<u8>>, k: int) -> Seq<u8> {
    join_components(w.subrange(0, k))
}

/// Whether the first `k` walked components make the shortest prefix that
/// the table maps.
pub open spec fn is_first_hit(t: Seq<(Seq<u8>, Seq<u8>)>, w: Seq<Seq<u8>>, k: int) -> bool {
    &&& 1 <= k <= w.len()
    &&& lookup(t, prefix_key(w, k)) is Some
    &&& forall|j: int| 1 <= j < k ==> #[trigger] lookup(t, prefix_key(w, j)) is None
}

/// The host path for guest path `p` under table `t`: the host directory of
/// the shortest mapped prefix, joined with what follows that prefix (the
/// whole path, when it has one component). `None` when no prefix is mapped
/// or the result holds a zero byte.
pub open spec fn resolve_path(t: Seq<(Seq<u8>, Seq<u8>)>, p: Seq<u8>) -> Option<Seq<u8>> {
    let cs = components(p);
    let w = walked(cs);
    if exists|k: int| is_first_hit(t, w, k) {
        let k = choose|k: int| is_first_hit(t, w, k);
        let base = lookup(t, prefix_key(w, k))->Some_0;
        let rest = if cs.len() == 1 {
            p
        } else {
            join_components(cs.subrange(k, cs.len() as int))
        };
        let out = join_path(base, rest);
        if no_zero(out) {
            Some(out)
        } else {
            None
        }
    } else {
        None
    }
}

/// The byte strings of an optional owned one.
pub open spec fn opt_view(o: Option<Vec<u8>>) -> Option<Seq<u8>> {
    match o {
        Some(v) => Some(v@),
        None => None,
    }
}

/// The byte strings of a vector of owned ones.
pub open spec fn seqs_view(v: Seq<Vec<u8>>) -> Seq<Seq<u8>> {
    v.map_values(|e: Vec<u8>| e@)
}

proof fn lemma_segments_nonempty(p: Seq<u8>)
    ensures
        segments(p).len() >= 1,
    decreases p.len(),
{
    if p.len() > 0 {
        lemma_segments_nonempty(p.drop_last());
    }
}

/// Whether `s` is a component at segment position `k`.
fn keeps(s: &[u8], k: usize) -> (r: bool)
    ensures
        r == keeps_segment(s@, k as int),
{
    if s.len() == 0 {
        return false;
    }
    let is_dot = s.len() == 1 && s[0] == DOT;
    assert(is_dot <==> s@ == seq![DOT]) by {
        if s@ == seq![DOT] {
            assert(s@.len() == 1 && s@[0] == DOT);
        }
        if is_dot {
            assert(s@ =~= seq![DOT]);
        }
    }
    !is_dot || k == 0
}

/// Splits a path into its components.
pub fn path_components(p: &[u8]) -> (r: Vec<Vec<u8>>)
    ensures
        seqs_view(r@) == components(p@),
{
    let mut out: Vec<Vec<u8>> = Vec::new();
    if p.len() > 0 && p[0] == SLASH {
        out.push(vec![SLASH]);
    }
    assert(seqs_view(out@) =~= root_of(p@)) by {
        if p@.len() > 0 && p@[0] == SLASH {
            assert(out@[0]@ =~= seq![SLASH]);
        }
    }
    let mut cur: Vec<u8> = Vec::new();
    let mut seg_index: usize = 0;
    let ghost mut done: Seq<Seq<u8>> = Seq::empty();
    let mut i: usize = 0;
    assert(p@.subrange(0, 0) =~= Seq::<u8>::empty());
    assert(segments(Seq::<u8>::empty()) =~= done.push(cur@));
    while i < p.len()
        invariant
            i <= p@.len(),
            seg_index == done.len(),
            seg_index <= i,
            segments(p@.subrange(0, i as int)) == done.push(cur@),
            seqs_view(out@) == root_of(p@) + kept_segments(done),
        decreases p@.len() - i,
    {
        let b = p[i];
        let ghost prev = p@.subrange(0, i as int);
        assert(p@.subrange(0, i + 1).drop_last() =~= prev);
        assert(p@.subrange(0, i + 1).last() == b);
        if b == SLASH {
            let keep = keeps(cur.as_slice(), seg_index);
            let ghost old_done = done;
            let ghost seg = cur@;
            proof {
                done = done.push(cur@);
                assert(done.drop_last() =~= old_done);
            }
            let ghost old_out = seqs_view(out@);
            assert(kept_segments(done) == if keep {
                kept_segments(old_done).push(seg)
            } else {
                kept_segments(old_done)
            });
            if keep {
                out.push(cur);
                assert(seqs_view(out@) =~= old_out.push(seg));
            }
            cur = Vec::new();
            seg_index = seg_index + 1;
            assert(segments(p@.subrange(0, i + 1)) =~= done.push(cur@));
        } else {
            cur.push(b);
            assert(segments(p@.subrange(0, i + 1)) =~= done.push(cur@));
        }
        i = i + 1;
    }
    assert(p@.subrange(0, p@.len() as int) =~= p@);
    let ghost all = done.push(cur@);
    assert(all.drop_last() =~= done);
    let ghost old_out = seqs_view(out@);
    let ghost last = cur@;
    let keep_last = keeps(cur.as_slice(), seg_index);
    assert(kept_segments(all) == if keep_last {
        kept_segments(done).push(last)
    } else {
        kept_segments(done)
    });
    if keep_last {
        out.push(cur);
        assert(seqs_view(out@) =~= old_out.push(last));
    }
    assert(seqs_view(out@) =~= components(p@));
    out
}

/// Appends the component `c` to the path `acc`.
fn push_component_exec(acc: &mut Vec<u8>, c: &[u8])
    ensures
        final(acc)@ == push_component(old(acc)@, c@),
{
    if acc.len() > 0 && acc[acc.len() - 1] != SLASH {
        acc.push(SLASH);
    }
    let mut i: usize = 0;
    let ghost start = acc@;
    while i < c.len()
        invariant
            i <= c@.len(),
            acc@ == start + c@.subrange(0, i as int),
        decreases c@.len() - i,
    {
        acc.push(c[i]);
        i = i + 1;
        assert(acc@ =~= start + c@.subrange(0, i as int));
    }
    assert(c@.subrange(0, c@.len() as int) =~= c@);
    assert(acc@ =~= push_component(old(acc)@, c@));
}

/// The path made of the components of `cs` from position `from` on.
fn join_from(cs: &Vec<Vec<u8>>, from: usize) -> (r: Vec<u8>)
    requires
        from <= cs@.len(),
    ensures
        r@ == join_components(seqs_view(cs@).subrange(from as int, cs@.len() as int)),
{
    let mut acc: Vec<u8> = Vec::new();
    let mut i: usize = from;
    assert(seqs_view(cs@).subrange(from as int, from as int) =~= Seq::<Seq<u8>>::empty());
    while i < cs.len()
        invariant
            from <= i <= cs@.len(),
            acc@ == join_components(seqs_view(cs@).subrange(from as int, i as int)),
        decreases cs@.len() - i,
    {
        push_component_exec(&mut acc, cs[i].as_slice());
        assert(seqs_view(cs@).subrange(from as int, i + 1).drop_last() =~= seqs_view(
            cs@,
        ).subrange(from as int, i as int));
        i = i + 1;
    }
    acc
}

/// Whether no byte of `b` is zero.
fn has_no_zero(b: &[u8]) -> (r: bool)
    ensures
        r == no_zero(b@),
{
    let mut i: usize = 0;
    while i < b.len()
        invariant
            i <= b@.len(),
            forall|k: int| 0 <= k < i ==> #[trigger] b@[k] != 0,
        decreases b@.len() - i,
    {
        if b[i] == 0 {
            return false;
        }
        i = i + 1;
    }
    true
}

proof fn lemma_first_hit_unique(t: Seq<(Seq<u8>, Seq<u8>)>, w: Seq<Seq<u8>>, k: int, k2: int)
    requires
        is_first_hit(t, w, k),
        is_first_hit(t, w, k2),
    ensures
        k == k2,
{
    if k < k2 {
        assert(lookup(t, prefix_key(w, k)) is None);
    } else if k2 < k {
        assert(lookup(t, prefix_key(w, k2)) is None);
    }
}

/// Maps the guest path `path` (the bytes of a C string) to a host path
/// through the context's mapping table: the walk goes over the path's
/// prefixes from the shortest, and the first that the table maps is
/// replaced by its host directory. `None` when the path is not UTF-8 text,
/// no prefix is mapped, or the result would hold a zero byte.
pub fn get_cstr_path(ctx: &Ctx, path: &[u8]) -> (r: Option<Vec<u8>>)
    ensures
        !is_utf8(path@) ==> r is None,
        is_utf8(path@) ==> opt_view(r) == resolve_path(ctx.mapped_dirs@, path@),
{
    if !check_utf8(path) {
        return None;
    }
    let t = &ctx.mapped_dirs;
    let cs = path_components(path);
    let prefix_added = cs.len() == 1;
    let mut walk: Vec<Vec<u8>> = Vec::new();
    if prefix_added {
        walk.push(vec![DOT]);
        walk.push(copy_bytes(cs[0].as_slice()));
    } else {
        let mut i: usize = 0;
        while i < cs.len()
            invariant
                i <= cs@.len(),
                walk@.len() == i,
                forall|j: int| 0 <= j < i ==> #[trigger] walk@[j]@ == cs@[j]@,
            decreases cs@.len() - i,
        {
            walk.push(copy_bytes(cs[i].as_slice()));
            i = i + 1;
        }
    }
    let ghost csv = components(path@);
    let ghost w = walked(csv);
    assert(seqs_view(walk@) =~= w) by {
        if prefix_added {
            assert(seqs_view(walk@)[0] =~= seq![DOT]);
        } else {
            assert forall|j: int| 0 <= j < walk@.len() implies seqs_view(walk@)[j] == seqs_view(
                cs@,
            )[j] by {
                assert(walk@[j]@ == cs@[j]@);
            }
        }
    }
    let mut acc: Vec<u8> = Vec::new();
    let mut k: usize = 0;
    assert(w.subrange(0, 0) =~= Seq::<Seq<u8>>::empty());
    while k < walk.len()
        invariant
            k <= walk@.len(),
            seqs_view(walk@) == w,
            seqs_view(cs@) == csv,
            w == walked(csv),
            prefix_added == (csv.len() == 1),
            is_utf8(path@),
            t@ == ctx.mapped_dirs@,
            csv == components(path@),
            acc@ == prefix_key(w, k as int),
            forall|j: int| 1 <= j <= k ==> #[trigger] lookup(t@, prefix_key(w, j)) is None,
        decreases walk@.len() - k,
    {
        push_component_exec(&mut acc, walk[k].as_slice());
        assert(w.subrange(0, k + 1).drop_last() =~= w.subrange(0, k as int));
        k = k + 1;
        match t.get(acc.as_slice()) {
            Some(base) => {
                assert(is_first_hit(t@, w, k as int));
                proof {
                    let c = choose|c: int| is_first_hit(t@, w, c);
                    lemma_first_hit_unique(t@, w, c, k as int);
                }
                let rest = if prefix_added {
                    copy_bytes(path)
                } else {
                    join_from(&cs, k)
                };
                let mut out = base;
                if rest.len() > 0 && rest[0] == SLASH {
                    out = rest;
                } else {
                    push_component_exec(&mut out, rest.as_slice());
                }
                if has_no_zero(out.as_slice()) {
                    return Some(out);
                } else {
                    return None;
                }
            },
            None => {},
        }
    }
    assert forall|c: int| !is_first_hit(t@, w, c) by {
        if is_first_hit(t@, w, c) {
            assert(lookup(t@, prefix_key(w, c)) is None);
        }
    }
    None
}

/// The host directory that stands for the guest's current directory: the
/// table's entry for `.`; else the host's current directory `host_cwd`
/// through the table, or as it is when the table does not map it. `None`
/// only when neither `.` is mapped nor the host directory is known.
pub fn get_current_directory(ctx: &Ctx, host_cwd: Option<Vec<u8>>) -> (r: Option<Vec<u8>>)
    ensures
        opt_view(r) == match lookup(ctx.mapped_dirs@, seq![DOT]) {
            Some(v) => Some(v),
            None => match opt_view(host_cwd) {
                None => None,
                Some(c) => match lookup(ctx.mapped_dirs@, c) {
                    Some(v) => Some(v),
                    None => Some(c),
                },
            },
        },
{
    let dot = vec![DOT];
    assert(dot@ =~= seq![DOT]);
    if let Some(v) = ctx.mapped_dirs.get(dot.as_slice()) {
        return Some(v);
    }
    match host_cwd {
        None => None,
        Some(cwd) => match ctx.mapped_dirs.get(cwd.as_slice()) {
            Some(v) => Some(v),
            None => Some(cwd),
        },
    }
}

} // verus!
