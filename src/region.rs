//! Rectangles and regions kept as a union of pairwise disjoint rectangles.
use vstd::prelude::*;

verus! {

/// An axis-aligned rectangle; `right` and `bottom` are exclusive.
#[derive(Clone, Copy, Debug, PartialEq, Eq, Structural)]
pub struct Rectangle {
    pub left: u16,
    pub top: u16,
    pub right: u16,
    pub bottom: u16,
}

/// Whether the pixel `(x, y)` lies in `r`.
pub open spec fn contains(r: Rectangle, x: int, y: int) -> bool {
    r.left <= x < r.right && r.top <= y < r.bottom
}

pub open spec fn is_empty_rect(r: Rectangle) -> bool {
    r.left >= r.right || r.top >= r.bottom
}

pub open spec fn disjoint(a: Rectangle, b: Rectangle) -> bool {
    a.right <= b.left || b.right <= a.left || a.bottom <= b.top || b.bottom <= a.top
}

/// Whether `(x, y)` lies in some rectangle of `rs`.
pub open spec fn covered(rs: Seq<Rectangle>, x: int, y: int) -> bool {
    exists|i: int| 0 <= i < rs.len() && #[trigger] contains(rs[i], x, y)
}

pub open spec fn pairwise_disjoint(rs: Seq<Rectangle>) -> bool {
    forall|i: int, j: int|
        0 <= i < rs.len() && 0 <= j < rs.len() && i != j ==> disjoint(#[trigger] rs[i], #[trigger] rs[j])
}

pub open spec fn all_nonempty(rs: Seq<Rectangle>) -> bool {
    forall|i: int| 0 <= i < rs.len() ==> !is_empty_rect(#[trigger] rs[i])
}

pub open spec fn zero_rect() -> Rectangle {
    Rectangle { left: 0, top: 0, right: 0, bottom: 0 }
}

/// The smallest rectangle holding both `a` and `b`.
pub open spec fn join(a: Rectangle, b: Rectangle) -> Rectangle {
    Rectangle {
        left: if a.left <= b.left { a.left } else { b.left },
        top: if a.top <= b.top { a.top } else { b.top },
        right: if a.right >= b.right { a.right } else { b.right },
        bottom: if a.bottom >= b.bottom { a.bottom } else { b.bottom },
    }
}

/// The bounding box of a sequence of rectangles; the zero rectangle when empty.
pub open spec fn bounding_box(rs: Seq<Rectangle>) -> Rectangle
    decreases rs.len(),
{
    if rs.len() == 0 {
        zero_rect()
    } else if rs.len() == 1 {
        rs[0]
    } else {
        join(bounding_box(rs.drop_last()), rs.last())
    }
}

/// Whether `inner` lies within `0..width` by `0..height`.
pub open spec fn within(r: Rectangle, width: int, height: int) -> bool {
    r.right <= width && r.bottom <= height && r.left <= r.right && r.top <= r.bottom
}

proof fn lemma_bbox_props(rs: Seq<Rectangle>)
    requires
        all_nonempty(rs),
        rs.len() > 0,
    ensures
        forall|i: int|
            0 <= i < rs.len() ==> bounding_box(rs).left <= (#[trigger] rs[i]).left && rs[i].right <= bounding_box(rs).right
                && bounding_box(rs).top <= rs[i].top && rs[i].bottom <= bounding_box(rs).bottom,
        exists|i: int| 0 <= i < rs.len() && (#[trigger] rs[i]).left == bounding_box(rs).left,
        exists|i: int| 0 <= i < rs.len() && (#[trigger] rs[i]).top == bounding_box(rs).top,
        exists|i: int| 0 <= i < rs.len() && (#[trigger] rs[i]).right == bounding_box(rs).right,
        exists|i: int| 0 <= i < rs.len() && (#[trigger] rs[i]).bottom == bounding_box(rs).bottom,
    decreases rs.len(),
{
    if rs.len() == 1 {
        assert(rs[0].left == bounding_box(rs).left);
        assert(rs[0].top == bounding_box(rs).top);
        assert(rs[0].right == bounding_box(rs).right);
        assert(rs[0].bottom == bounding_box(rs).bottom);
    } else {
        let p = rs.drop_last();
        assert forall|i: int| 0 <= i < p.len() implies !is_empty_rect(#[trigger] p[i]) by {
            assert(p[i] == rs[i]);
        }
        lemma_bbox_props(p);
        let l = rs.len() - 1;
        assert forall|i: int| 0 <= i < rs.len() implies bounding_box(rs).left <= (#[trigger] rs[i]).left && rs[i].right
            <= bounding_box(rs).right && bounding_box(rs).top <= rs[i].top && rs[i].bottom <= bounding_box(rs).bottom by {
            if i < l {
                assert(rs[i] == p[i]);
            }
        }
        let a = choose|i: int| 0 <= i < p.len() && (#[trigger] p[i]).left == bounding_box(p).left;
        let bt = choose|i: int| 0 <= i < p.len() && (#[trigger] p[i]).top == bounding_box(p).top;
        let c = choose|i: int| 0 <= i < p.len() && (#[trigger] p[i]).right == bounding_box(p).right;
        let d = choose|i: int| 0 <= i < p.len() && (#[trigger] p[i]).bottom == bounding_box(p).bottom;
        assert(rs[a] == p[a] && rs[bt] == p[bt] && rs[c] == p[c] && rs[d] == p[d]);
        if rs[l].left <= bounding_box(p).left { assert(rs[l].left == bounding_box(rs).left); } else { assert(rs[a].left == bounding_box(rs).left); }
        if rs[l].top <= bounding_box(p).top { assert(rs[l].top == bounding_box(rs).top); } else { assert(rs[bt].top == bounding_box(rs).top); }
        if rs[l].right >= bounding_box(p).right { assert(rs[l].right == bounding_box(rs).right); } else { assert(rs[c].right == bounding_box(rs).right); }
        if rs[l].bottom >= bounding_box(p).bottom { assert(rs[l].bottom == bounding_box(rs).bottom); } else { assert(rs[d].bottom == bounding_box(rs).bottom); }
    }
}

/// Two sets of non-empty rectangles that cover the same pixels have the same
/// bounding box.
pub proof fn lemma_bounding_box_unique(a: Seq<Rectangle>, b: Seq<Rectangle>)
    requires
        all_nonempty(a),
        all_nonempty(b),
        forall|x: int, y: int| covered(a, x, y) <==> covered(b, x, y),
    ensures
        bounding_box(a) == bounding_box(b),
{
    if a.len() == 0 || b.len() == 0 {
        if a.len() > 0 {
            assert(contains(a[0], a[0].left as int, a[0].top as int));
            assert(covered(a, a[0].left as int, a[0].top as int));
        }
        if b.len() > 0 {
            assert(contains(b[0], b[0].left as int, b[0].top as int));
            assert(covered(b, b[0].left as int, b[0].top as int));
        }
    } else {
        lemma_bbox_le(a, b);
        lemma_bbox_le(b, a);
    }
}

proof fn lemma_bbox_le(a: Seq<Rectangle>, b: Seq<Rectangle>)
    requires
        all_nonempty(a),
        all_nonempty(b),
        a.len() > 0,
        b.len() > 0,
        forall|x: int, y: int| covered(a, x, y) <==> covered(b, x, y),
    ensures
        bounding_box(b).left <= bounding_box(a).left,
        bounding_box(b).top <= bounding_box(a).top,
        bounding_box(b).right >= bounding_box(a).right,
        bounding_box(b).bottom >= bounding_box(a).bottom,
{
    lemma_bbox_props(a);
    lemma_bbox_props(b);
    let i = choose|i: int| 0 <= i < a.len() && (#[trigger] a[i]).left == bounding_box(a).left;
    assert(contains(a[i], a[i].left as int, a[i].top as int));
    assert(covered(a, a[i].left as int, a[i].top as int));
    let j = choose|j: int| 0 <= j < b.len() && #[trigger] contains(b[j], a[i].left as int, a[i].top as int);
    let i2 = choose|i: int| 0 <= i < a.len() && (#[trigger] a[i]).top == bounding_box(a).top;
    assert(contains(a[i2], a[i2].left as int, a[i2].top as int));
    assert(covered(a, a[i2].left as int, a[i2].top as int));
    let j2 = choose|j: int| 0 <= j < b.len() && #[trigger] contains(b[j], a[i2].left as int, a[i2].top as int);
    let i3 = choose|i: int| 0 <= i < a.len() && (#[trigger] a[i]).right == bounding_box(a).right;
    assert(contains(a[i3], a[i3].right - 1, a[i3].top as int));
    assert(covered(a, a[i3].right - 1, a[i3].top as int));
    let j3 = choose|j: int| 0 <= j < b.len() && #[trigger] contains(b[j], a[i3].right - 1, a[i3].top as int);
    let i4 = choose|i: int| 0 <= i < a.len() && (#[trigger] a[i]).bottom == bounding_box(a).bottom;
    assert(contains(a[i4], a[i4].left as int, a[i4].bottom - 1));
    assert(covered(a, a[i4].left as int, a[i4].bottom - 1));
    let j4 = choose|j: int| 0 <= j < b.len() && #[trigger] contains(b[j], a[i4].left as int, a[i4].bottom - 1);
    assert(bounding_box(b).left <= b[j].left);
    assert(bounding_box(b).top <= b[j2].top);
    assert(b[j3].right <= bounding_box(b).right);
    assert(b[j4].bottom <= bounding_box(b).bottom);
}

/// A set of pixels stored as disjoint non-empty rectangles, with their bounding box.
#[derive(Clone, Debug)]
pub struct Region {
    pub extents: Rectangle,
    pub rectangles: Vec<Rectangle>,
}

impl Region {
    pub open spec fn wf(&self) -> bool {
        &&& pairwise_disjoint(self.rectangles@)
        &&& all_nonempty(self.rectangles@)
        &&& self.extents == bounding_box(self.rectangles@)
    }

    /// Whether the region holds the pixel `(x, y)`.
    pub open spec fn covers(&self, x: int, y: int) -> bool {
        covered(self.rectangles@, x, y)
    }

    pub fn new() -> (r: Region)
        ensures
            r.wf(),
            r.rectangles@.len() == 0,
            forall|x: int, y: int| !r.covers(x, y),
    {
        Region { extents: Rectangle { left: 0, top: 0, right: 0, bottom: 0 }, rectangles: Vec::new() }
    }

    /// Adds the pixels of `r` to the region, keeping its rectangles disjoint.
    pub fn union_rectangle(&mut self, r: Rectangle)
        requires
            old(self).wf(),
        ensures
            final(self).wf(),
            forall|x: int, y: int|
                #![trigger final(self).covers(x, y)]
                final(self).covers(x, y) <==> old(self).covers(x, y) || contains(r, x, y),
    {
        if r.left >= r.right || r.top >= r.bottom {
            return;
        }
        let mut pieces: Vec<Rectangle> = Vec::new();
        pieces.push(r);
        let n = self.rectangles.len();
        let mut i: usize = 0;
        proof {
            assert forall|x: int, y: int|
                #![trigger covered(pieces@, x, y)]
                covered(pieces@, x, y) <==> contains(r, x, y) && !covered(
                    self.rectangles@.subrange(0, 0),
                    x,
                    y,
                ) by {
                if contains(r, x, y) {
                    assert(contains(pieces@[0], x, y));
                }
            }
        }
        while i < n
            invariant
                n == self.rectangles@.len(),
                i <= n,
                self.wf(),
                *self == *old(self),
                pairwise_disjoint(pieces@),
                all_nonempty(pieces@),
                forall|p: int, j: int|
                    0 <= p < pieces@.len() && 0 <= j < i ==> disjoint(
                        #[trigger] pieces@[p],
                        #[trigger] self.rectangles@[j],
                    ),
                forall|x: int, y: int|
                    #![trigger covered(pieces@, x, y)]
                    covered(pieces@, x, y) <==> contains(r, x, y) && !covered(
                        self.rectangles@.subrange(0, i as int),
                        x,
                        y,
                    ),
            decreases n - i,
        {
            let s = self.rectangles[i];
            let next = subtract_all(&pieces, s);
            pieces = next;
            proof {
                let old_pre = self.rectangles@.subrange(0, i as int);
                let new_pre = self.rectangles@.subrange(0, i + 1);
                assert forall|x: int, y: int|
                    covered(new_pre, x, y) <==> covered(old_pre, x, y) || contains(s, x, y) by {
                    if covered(new_pre, x, y) {
                        let k = choose|k: int| 0 <= k < new_pre.len() && #[trigger] contains(new_pre[k], x, y);
                        if k < i {
                            assert(old_pre[k] == new_pre[k]);
                        }
                    }
                    if covered(old_pre, x, y) {
                        let k = choose|k: int| 0 <= k < old_pre.len() && #[trigger] contains(old_pre[k], x, y);
                        assert(new_pre[k] == old_pre[k]);
                    }
                    if contains(s, x, y) {
                        assert(new_pre[i as int] == s);
                    }
                }
            }
            i += 1;
        }
        assert(self.rectangles@.subrange(0, n as int) =~= self.rectangles@);
        let m = pieces.len();
        let mut k: usize = 0;
        let ghost base = self.rectangles@;
        while k < m
            invariant
                m == pieces@.len(),
                k <= m,
                self.rectangles@ == base + pieces@.subrange(0, k as int),
                old(self).wf(),
                base == old(self).rectangles@,
                self.wf(),
                pairwise_disjoint(pieces@),
                all_nonempty(pieces@),
                forall|p: int, j: int|
                    0 <= p < pieces@.len() && 0 <= j < base.len() ==> disjoint(
                        #[trigger] pieces@[p],
                        #[trigger] base[j],
                    ),
            decreases m - k,
        {
            let p = pieces[k];
            let ghost before = self.rectangles@;
            if self.rectangles.len() == 0 {
                self.extents = p;
            } else {
                self.extents = join_rect(self.extents, p);
            }
            self.rectangles.push(p);
            proof {
                assert(self.rectangles@.drop_last() == before);
                assert(pieces@.subrange(0, k + 1) == pieces@.subrange(0, k as int).push(p));
                assert(self.rectangles@ == base + pieces@.subrange(0, k + 1));
                assert forall|a: int, b: int|
                    0 <= a < self.rectangles@.len() && 0 <= b < self.rectangles@.len() && a != b implies disjoint(
                        #[trigger] self.rectangles@[a],
                        #[trigger] self.rectangles@[b],
                    ) by {
                    if a >= base.len() {
                        assert(self.rectangles@[a] == pieces@[a - base.len()]);
                    }
                    if b >= base.len() {
                        assert(self.rectangles@[b] == pieces@[b - base.len()]);
                    }
                }
            }
            k += 1;
        }
        proof {
            assert(pieces@.subrange(0, m as int) =~= pieces@);
            assert forall|x: int, y: int|
                #![trigger self.covers(x, y)]
                self.covers(x, y) <==> old(self).covers(x, y) || contains(r, x, y) by {
                if self.covers(x, y) {
                    let a = choose|a: int| 0 <= a < self.rectangles@.len() && #[trigger] contains(self.rectangles@[a], x, y);
                    if a >= base.len() {
                        assert(self.rectangles@[a] == pieces@[a - base.len()]);
                        assert(covered(pieces@, x, y));
                    } else {
                        assert(self.rectangles@[a] == base[a]);
                    }
                }
                if old(self).covers(x, y) {
                    let a = choose|a: int| 0 <= a < base.len() && #[trigger] contains(base[a], x, y);
                    assert(self.rectangles@[a] == base[a]);
                }
                if contains(r, x, y) && !old(self).covers(x, y) {
                    assert(covered(pieces@, x, y));
                    let a = choose|a: int| 0 <= a < pieces@.len() && #[trigger] contains(pieces@[a], x, y);
                    assert(self.rectangles@[base.len() + a] == pieces@[a]);
                }
            }
        }
    }

    /// The region that holds exactly the pixels of the given rectangles.
    pub fn from_rectangles(rs: &[Rectangle]) -> (r: Region)
        ensures
            r.wf(),
            forall|x: int, y: int| #![trigger r.covers(x, y)] r.covers(x, y) <==> covered(rs@, x, y),
    {
        let mut region = Region::new();
        let mut i: usize = 0;
        while i < rs.len()
            invariant
                i <= rs@.len(),
                region.wf(),
                forall|x: int, y: int|
                    #![trigger region.covers(x, y)]
                    region.covers(x, y) <==> covered(rs@.subrange(0, i as int), x, y),
            decreases rs@.len() - i,
        {
            region.union_rectangle(rs[i]);
            proof {
                let pre = rs@.subrange(0, i as int);
                let pre1 = rs@.subrange(0, i + 1);
                assert forall|x: int, y: int|
                    covered(pre1, x, y) <==> covered(pre, x, y) || contains(rs@[i as int], x, y) by {
                    if covered(pre1, x, y) {
                        let k = choose|k: int| 0 <= k < pre1.len() && #[trigger] contains(pre1[k], x, y);
                        if k < i {
                            assert(pre[k] == pre1[k]);
                        }
                    }
                    if covered(pre, x, y) {
                        let k = choose|k: int| 0 <= k < pre.len() && #[trigger] contains(pre[k], x, y);
                        assert(pre1[k] == pre[k]);
                    }
                    if contains(rs@[i as int], x, y) {
                        assert(pre1[i as int] == rs@[i as int]);
                    }
                }
            }
            i += 1;
        }
        assert(rs@.subrange(0, rs@.len() as int) =~= rs@);
        region
    }
}

fn join_rect(a: Rectangle, b: Rectangle) -> (r: Rectangle)
    ensures
        r == join(a, b),
{
    Rectangle {
        left: if a.left <= b.left { a.left } else { b.left },
        top: if a.top <= b.top { a.top } else { b.top },
        right: if a.right >= b.right { a.right } else { b.right },
        bottom: if a.bottom >= b.bottom { a.bottom } else { b.bottom },
    }
}

/// The four candidate pieces of `p` outside `s`: above, below, left and right of `s`.
spec fn piece(p: Rectangle, s: Rectangle, t: int) -> Rectangle {
    let mt = if p.top > s.top { p.top } else { s.top };
    let mb = if p.bottom < s.bottom { p.bottom } else { s.bottom };
    if t == 0 {
        Rectangle { left: p.left, top: p.top, right: p.right, bottom: s.top }
    } else if t == 1 {
        Rectangle { left: p.left, top: s.bottom, right: p.right, bottom: p.bottom }
    } else if t == 2 {
        Rectangle { left: p.left, top: mt, right: s.left, bottom: mb }
    } else {
        Rectangle { left: s.right, top: mt, right: p.right, bottom: mb }
    }
}

fn push_nonempty(out: &mut Vec<Rectangle>, c: Rectangle)
    ensures
        is_empty_rect(c) ==> final(out)@ == old(out)@,
        !is_empty_rect(c) ==> final(out)@ == old(out)@.push(c),
{
    if c.left < c.right && c.top < c.bottom {
        out.push(c);
    }
}

proof fn lemma_pieces_disjoint(p: Rectangle, s: Rectangle, a: int, b: int)
    requires
        !disjoint(p, s),
        !is_empty_rect(s),
        0 <= a < b < 4,
        !is_empty_rect(piece(p, s, a)),
        !is_empty_rect(piece(p, s, b)),
    ensures
        disjoint(piece(p, s, a), piece(p, s, b)),
        disjoint(piece(p, s, b), piece(p, s, a)),
{
}

/// The pixels of `p` outside `s`, as at most four disjoint non-empty rectangles within `p`.
fn subtract(p: Rectangle, s: Rectangle) -> (r: Vec<Rectangle>)
    requires
        !is_empty_rect(p),
        !is_empty_rect(s),
    ensures
        pairwise_disjoint(r@),
        all_nonempty(r@),
        forall|k: int|
            0 <= k < r@.len() ==> disjoint(#[trigger] r@[k], s) && (forall|x: int, y: int|
                contains(r@[k], x, y) ==> contains(p, x, y)),
        forall|x: int, y: int|
            contains(p, x, y) && !contains(s, x, y) ==> exists|k: int|
                0 <= k < r@.len() && #[trigger] contains(r@[k], x, y),
{
    let mut out: Vec<Rectangle> = Vec::new();
    if p.right <= s.left || s.right <= p.left || p.bottom <= s.top || s.bottom <= p.top {
        out.push(p);
        assert forall|x: int, y: int|
            contains(p, x, y) && !contains(s, x, y) implies exists|k: int|
                0 <= k < out@.len() && #[trigger] contains(out@[k], x, y) by {
            assert(contains(out@[0], x, y));
        }
        return out;
    }
    let mid_top = if p.top > s.top { p.top } else { s.top };
    let mid_bottom = if p.bottom < s.bottom { p.bottom } else { s.bottom };
    let ghost mut tags: Seq<int> = Seq::empty();
    let ghost mut idx: Seq<int> = seq![0, 0, 0, 0];
    let ghost o0 = out@;
    push_nonempty(&mut out, Rectangle { left: p.left, top: p.top, right: p.right, bottom: s.top });
    proof {
        if out@.len() > o0.len() {
            idx = idx.update(0, tags.len() as int);
            tags = tags.push(0);
        }
    }
    let ghost o1 = out@;
    push_nonempty(&mut out, Rectangle { left: p.left, top: s.bottom, right: p.right, bottom: p.bottom });
    proof {
        if out@.len() > o1.len() {
            idx = idx.update(1, tags.len() as int);
            tags = tags.push(1);
        }
    }
    let ghost o2 = out@;
    push_nonempty(&mut out, Rectangle { left: p.left, top: mid_top, right: s.left, bottom: mid_bottom });
    proof {
        if out@.len() > o2.len() {
            idx = idx.update(2, tags.len() as int);
            tags = tags.push(2);
        }
    }
    let ghost o3 = out@;
    push_nonempty(&mut out, Rectangle { left: s.right, top: mid_top, right: p.right, bottom: mid_bottom });
    proof {
        if out@.len() > o3.len() {
            idx = idx.update(3, tags.len() as int);
            tags = tags.push(3);
        }
        assert(tags.len() == out@.len());
        assert forall|t: int| 0 <= t < 4 && !is_empty_rect(#[trigger] piece(p, s, t)) implies 0 <= idx[t] < tags.len() && tags[idx[t]] == t by {
        }
        assert forall|k: int| 0 <= k < out@.len() implies #[trigger] out@[k] == piece(p, s, tags[k])
            && 0 <= tags[k] < 4 && !is_empty_rect(out@[k]) by {
        }
        assert forall|a: int, b: int| 0 <= a < b < out@.len() implies tags[a] < tags[b] by {
        }
        assert forall|a: int, b: int|
            0 <= a < out@.len() && 0 <= b < out@.len() && a != b implies disjoint(
                #[trigger] out@[a],
                #[trigger] out@[b],
            ) by {
            if a < b {
                assert(tags[a] < tags[b]);
                lemma_pieces_disjoint(p, s, tags[a], tags[b]);
            } else {
                assert(tags[b] < tags[a]);
                lemma_pieces_disjoint(p, s, tags[b], tags[a]);
            }
        }
        assert forall|x: int, y: int|
            contains(p, x, y) && !contains(s, x, y) implies exists|k: int|
                0 <= k < out@.len() && #[trigger] contains(out@[k], x, y) by {
            let t = if y < s.top { 0int } else if y >= s.bottom { 1int } else if x < s.left { 2int } else { 3int };
            assert(contains(piece(p, s, t), x, y));
            let k = idx[t];
            assert(contains(out@[k], x, y));
        }
    }
    out
}

/// The pixels of the rectangles of `ps` outside `s`.
fn subtract_all(ps: &Vec<Rectangle>, s: Rectangle) -> (r: Vec<Rectangle>)
    requires
        pairwise_disjoint(ps@),
        all_nonempty(ps@),
        !is_empty_rect(s),
    ensures
        pairwise_disjoint(r@),
        all_nonempty(r@),
        forall|k: int| 0 <= k < r@.len() ==> disjoint(#[trigger] r@[k], s),
        forall|x: int, y: int|
            #![trigger covered(r@, x, y)]
            covered(r@, x, y) <==> covered(ps@, x, y) && !contains(s, x, y),
        forall|k: int, t: Rectangle|
            #![trigger disjoint(r@[k], t)]
            0 <= k < r@.len() && !is_empty_rect(t) && (forall|j: int| 0 <= j < ps@.len() ==> disjoint(ps@[j], t))
                ==> disjoint(r@[k], t),
{
    let mut out: Vec<Rectangle> = Vec::new();
    let mut i: usize = 0;
    let ghost owner: Seq<int> = Seq::empty();
    while i < ps.len()
        invariant
            i <= ps@.len(),
            !is_empty_rect(s),
            pairwise_disjoint(ps@),
            all_nonempty(ps@),
            owner.len() == out@.len(),
            forall|k: int| 0 <= k < out@.len() ==> 0 <= #[trigger] owner[k] < i,
            forall|k: int|
                0 <= k < out@.len() ==> !is_empty_rect(#[trigger] out@[k]) && disjoint(out@[k], s)
                    && (forall|x: int, y: int|
                    contains(out@[k], x, y) ==> contains(ps@[owner[k]], x, y)),
            pairwise_disjoint(out@),
            forall|x: int, y: int|
                #![trigger covered(out@, x, y)]
                covered(out@, x, y) <==> covered(ps@.subrange(0, i as int), x, y) && !contains(s, x, y),
        decreases ps@.len() - i,
    {
        let ghost before = out@;
        let ghost pre = ps@.subrange(0, i as int);
        let mut part = subtract(ps[i], s);
        let ghost part_view = part@;
        out.append(&mut part);
        proof {
            assert forall|k: int| before.len() <= k < out@.len() implies #[trigger] out@[k] == part_view[k - before.len()] by {}
            assert forall|k: int| 0 <= k < before.len() implies #[trigger] out@[k] == before[k] by {}
            let p = ps@[i as int];
            let new_owner = owner + Seq::new((out@.len() - before.len()) as nat, |q: int| i as int);
            assert forall|k: int| 0 <= k < out@.len() implies 0 <= #[trigger] new_owner[k] < i + 1 by {
                if k >= before.len() {
                    assert(new_owner[k] == i);
                } else {
                    assert(new_owner[k] == owner[k]);
                }
            }
            assert forall|k: int| 0 <= k < out@.len() implies !is_empty_rect(#[trigger] out@[k]) && disjoint(out@[k], s)
                && (forall|x: int, y: int| contains(out@[k], x, y) ==> contains(ps@[new_owner[k]], x, y)) by {
                if k < before.len() {
                    assert(out@[k] == before[k]);
                    assert(new_owner[k] == owner[k]);
                } else {
                    assert(new_owner[k] == i);
                }
            }
            assert forall|a: int, b: int|
                0 <= a < out@.len() && 0 <= b < out@.len() && a != b implies disjoint(
                    #[trigger] out@[a],
                    #[trigger] out@[b],
                ) by {
                if a < before.len() && b < before.len() {
                    assert(out@[a] == before[a]);
                    assert(out@[b] == before[b]);
                } else if a < before.len() {
                    assert(out@[a] == before[a]);
                    let oa = owner[a];
                    assert(oa != i);
                    assert(disjoint(ps@[oa], p));
                    let ra = out@[a];
                    let rb = out@[b];
                    // each lies within its owner, and the owners are disjoint
                    assert(disjoint(ra, rb)) by {
                        if !disjoint(ra, rb) {
                            let x = if ra.left >= rb.left { ra.left as int } else { rb.left as int };
                            let y = if ra.top >= rb.top { ra.top as int } else { rb.top as int };
                            assert(contains(ra, x, y));
                            assert(contains(rb, x, y));
                            assert(contains(ps@[oa], x, y));
                            assert(contains(p, x, y));
                        }
                    }
                } else if b < before.len() {
                    assert(out@[b] == before[b]);
                    let ob = owner[b];
                    assert(ob != i);
                    assert(disjoint(ps@[ob], p));
                    let ra = out@[a];
                    let rb = out@[b];
                    assert(disjoint(ra, rb)) by {
                        if !disjoint(ra, rb) {
                            let x = if ra.left >= rb.left { ra.left as int } else { rb.left as int };
                            let y = if ra.top >= rb.top { ra.top as int } else { rb.top as int };
                            assert(contains(ra, x, y));
                            assert(contains(rb, x, y));
                            assert(contains(ps@[ob], x, y));
                            assert(contains(p, x, y));
                        }
                    }
                }
            }
            let pre1 = ps@.subrange(0, i + 1);
            assert forall|x: int, y: int|
                #![trigger covered(out@, x, y)]
                covered(out@, x, y) <==> covered(pre1, x, y) && !contains(s, x, y) by {
                if covered(out@, x, y) {
                    let k = choose|k: int| 0 <= k < out@.len() && #[trigger] contains(out@[k], x, y);
                    if k < before.len() {
                        assert(before[k] == out@[k]);
                        assert(covered(before, x, y));
                        let j = choose|j: int| 0 <= j < pre.len() && #[trigger] contains(pre[j], x, y);
                        assert(pre1[j] == pre[j]);
                    } else {
                        assert(contains(p, x, y));
                        assert(pre1[i as int] == p);
                    }
                }
                if covered(pre1, x, y) && !contains(s, x, y) {
                    let j = choose|j: int| 0 <= j < pre1.len() && #[trigger] contains(pre1[j], x, y);
                    if j < i {
                        assert(pre[j] == pre1[j]);
                        assert(covered(pre, x, y));
                        assert(covered(before, x, y));
                        let k = choose|k: int| 0 <= k < before.len() && #[trigger] contains(before[k], x, y);
                        assert(out@[k] == before[k]);
                    } else {
                        assert(pre1[j] == p);
                        let k2 = choose|k2: int| 0 <= k2 < part_view.len() && #[trigger] contains(part_view[k2], x, y);
                        assert(out@[before.len() + k2] == part_view[k2]);
                        assert(contains(out@[before.len() + k2], x, y));
                    }
                }
            }
            owner = new_owner;
        }
        i += 1;
    }
    assert(ps@.subrange(0, ps@.len() as int) =~= ps@);
    proof {
        assert forall|k: int, t: Rectangle|
            #![trigger disjoint(out@[k], t)]
            0 <= k < out@.len() && !is_empty_rect(t) && (forall|j: int| 0 <= j < ps@.len() ==> disjoint(ps@[j], t)) implies disjoint(
                out@[k],
                t,
            ) by {
            let rk = out@[k];
            let o = owner[k];
            assert(disjoint(ps@[o], t));
            if !disjoint(rk, t) {
                let x = if rk.left >= t.left { rk.left as int } else { t.left as int };
                let y = if rk.top >= t.top { rk.top as int } else { t.top as int };
                assert(contains(rk, x, y));
                assert(contains(t, x, y));
                assert(contains(ps@[o], x, y));
            }
        }
    }
    out
}

} // verus!
