use vstd::prelude::*;

verus! {

broadcast use vstd::seq_lib::group_to_multiset_ensures;

/// Which side of a surface the eye looks at it from.
#[derive(Debug, Clone, Copy, PartialEq, Eq, Structural)]
pub enum IntersectionType {
    Inside,
    Outside,
}

impl IntersectionType {
    /// The eye is inside the object exactly when the surface normal points away
    /// from it (the dot product of normal and eye vector is negative).
    pub fn from_facing(normal_faces_away: bool) -> (r: IntersectionType)
        ensures
            r == (if normal_faces_away {
                IntersectionType::Inside
            } else {
                IntersectionType::Outside
            }),
    {
        if normal_faces_away {
            IntersectionType::Inside
        } else {
            IntersectionType::Outside
        }
    }
}

/// The sign bit of an IEEE-754 single-precision bit pattern.
pub const SIGN_BIT: u32 = 0x8000_0000;

/// The position of a single-precision value, given by its bit pattern, on the
/// number line: the magnitude bits carry the order of absolute values, the sign
/// bit flips it. Both zeros rank as 0, every negative value below 0, every
/// positive value above it; a not-a-number pattern ranks beyond the infinity of
/// its sign, and never counts as a hit (see `in_front`).
pub open spec fn rank(bits: u32) -> int {
    if bits >= SIGN_BIT {
        -((bits - SIGN_BIT) as int)
    } else {
        bits as int
    }
}

/// The bit pattern of a value that is not a number: every exponent bit set
/// and a non-zero mantissa.
pub open spec fn is_nan(bits: u32) -> bool {
    if bits >= SIGN_BIT {
        bits - SIGN_BIT > 0x7f80_0000
    } else {
        bits > 0x7f80_0000
    }
}

/// Whether the bit pattern is a number not below zero: a ray parameter in
/// front of the ray's origin.
pub open spec fn in_front(bits: u32) -> bool {
    rank(bits) >= 0 && !is_nan(bits)
}

/// Computes `in_front` of a bit pattern.
pub fn t_in_front(bits: u32) -> (r: bool)
    ensures
        r == in_front(bits),
{
    bits < SIGN_BIT && bits <= 0x7f80_0000 || bits == SIGN_BIT
}

/// Computes `rank` of a bit pattern.
pub fn t_rank(bits: u32) -> (r: i64)
    ensures
        r == rank(bits),
{
    if bits >= SIGN_BIT {
        -((bits - SIGN_BIT) as i64)
    } else {
        bits as i64
    }
}

/// A ray parameter `t`, held as the bit pattern of its single-precision value,
/// and the handle (an index into the scene's object list) of the object struck.
#[derive(Debug, Clone, Copy, PartialEq, Eq, Structural)]
pub struct Intersection {
    pub t_bits: u32,
    pub object: usize,
}

impl Intersection {
    pub fn new(t_bits: u32, object: usize) -> (r: Intersection)
        ensures
            r.t_bits == t_bits,
            r.object == object,
    {
        Intersection { t_bits, object }
    }

    pub open spec fn rank(&self) -> int {
        rank(self.t_bits)
    }

    pub open spec fn in_front(&self) -> bool {
        in_front(self.t_bits)
    }
}

/// Ascending by `t`.
pub open spec fn sorted(s: Seq<Intersection>) -> bool {
    forall|i: int, j: int| 0 <= i < j < s.len() ==> #[trigger] s[i].rank() <= #[trigger] s[j].rank()
}

/// The index of the first entry at or after `i` whose `t` is a number not
/// below zero.
pub open spec fn first_hit_from(s: Seq<Intersection>, i: int) -> Option<int>
    decreases s.len() - i,
{
    if i < 0 || i >= s.len() {
        None
    } else if s[i].in_front() {
        Some(i)
    } else {
        first_hit_from(s, i + 1)
    }
}

/// The index of the hit: the first entry whose `t` is a number not below zero.
pub open spec fn first_hit(s: Seq<Intersection>) -> Option<int> {
    first_hit_from(s, 0)
}

/// `s` with `x` placed after every entry whose `t` is not larger, and before
/// every entry whose `t` is larger, for an ascending `s`: moving in from the
/// back, `x` passes each larger entry.
pub open spec fn insert_sorted(s: Seq<Intersection>, x: Intersection) -> Seq<Intersection>
    decreases s.len(),
{
    if s.len() == 0 {
        seq![x]
    } else if s.last().rank() <= x.rank() {
        s.push(x)
    } else {
        insert_sorted(s.drop_last(), x).push(s.last())
    }
}

/// `s` after inserting the entries of `r` one at a time, in order.
pub open spec fn insert_all(s: Seq<Intersection>, r: Seq<Intersection>) -> Seq<Intersection>
    decreases r.len(),
{
    if r.len() == 0 {
        s
    } else {
        insert_sorted(insert_all(s, r.drop_last()), r.last())
    }
}

proof fn lemma_first_hit_from(s: Seq<Intersection>, i: int)
    requires
        0 <= i <= s.len(),
    ensures
        first_hit_from(s, i) matches Some(k) ==> {
            &&& i <= k < s.len()
            &&& s[k].in_front()
            &&& forall|j: int| i <= j < k ==> !#[trigger] s[j].in_front()
        },
        first_hit_from(s, i) is None ==> forall|j: int| i <= j < s.len() ==> !#[trigger] s[j].in_front(),
    decreases s.len() - i,
{
    if i < s.len() && !s[i].in_front() {
        lemma_first_hit_from(s, i + 1);
    }
}

/// Placing `x` at `p`, after every entry not larger and before every larger
/// one, is what `insert_sorted` gives.
proof fn lemma_insert_sorted(s: Seq<Intersection>, x: Intersection, p: int)
    requires
        0 <= p <= s.len(),
        forall|k: int| 0 <= k < p ==> #[trigger] s[k].rank() <= x.rank(),
        forall|k: int| p <= k < s.len() ==> #[trigger] s[k].rank() > x.rank(),
    ensures
        insert_sorted(s, x) == s.insert(p, x),
    decreases s.len(),
{
    if s.len() == 0 {
        assert(s.insert(p, x) =~= seq![x]);
    } else if s.last().rank() <= x.rank() {
        if p < s.len() {
            assert(s[s.len() - 1].rank() > x.rank());
        }
        assert(s.insert(p, x) =~= s.push(x));
    } else {
        if p == s.len() {
            assert(s[s.len() - 1].rank() <= x.rank());
        }
        let d = s.drop_last();
        assert forall|k: int| 0 <= k < p implies #[trigger] d[k].rank() <= x.rank() by {
            assert(d[k] == s[k]);
        }
        assert forall|k: int| p <= k < d.len() implies #[trigger] d[k].rank() > x.rank() by {
            assert(d[k] == s[k]);
        }
        lemma_insert_sorted(d, x, p);
        assert(s.insert(p, x) =~= d.insert(p, x).push(s.last()));
    }
}

/// The intersections of a ray with a scene, kept in ascending order of `t`.
pub struct IntersectionCollection {
    inner: Vec<Intersection>,
}

impl View for IntersectionCollection {
    type V = Seq<Intersection>;

    closed spec fn view(&self) -> Seq<Intersection> {
        self.inner@
    }
}

impl IntersectionCollection {
    pub open spec fn well_formed(&self) -> bool {
        sorted(self@)
    }

    pub fn new() -> (r: IntersectionCollection)
        ensures
            r@ == Seq::<Intersection>::empty(),
            r.well_formed(),
    {
        IntersectionCollection { inner: Vec::new() }
    }

    /// Takes over a vector that is already in ascending order of `t`.
    pub fn from_vec_unchecked(vec: Vec<Intersection>) -> (r: IntersectionCollection)
        requires
            sorted(vec@),
        ensures
            r@ == vec@,
            r.well_formed(),
    {
        IntersectionCollection { inner: vec }
    }

    pub fn len(&self) -> (r: usize)
        ensures
            r == self@.len(),
    {
        self.inner.len()
    }

    pub fn is_empty(&self) -> (r: bool)
        ensures
            r == (self@.len() == 0),
    {
        self.inner.len() == 0
    }

    pub fn index(&self, index: usize) -> (r: &Intersection)
        requires
            index < self@.len(),
        ensures
            *r == self@[index as int],
    {
        &self.inner[index]
    }

    /// The first intersection whose `t` is a number not below zero, if any.
    pub fn hit(&self) -> (r: Option<&Intersection>)
        ensures
            r is None <==> first_hit(self@) is None,
            r matches Some(h) ==> *h == self@[first_hit(self@)->0],
    {
        let mut i: usize = 0;
        while i < self.inner.len()
            invariant
                0 <= i <= self@.len(),
                first_hit(self@) == first_hit_from(self@, i as int),
            decreases self@.len() - i,
        {
            if t_in_front(self.inner[i].t_bits) {
                return Some(&self.inner[i]);
            }
            i = i + 1;
        }
        None
    }

    /// Whether the hit lies strictly nearer than `distance_bits` (the bit
    /// pattern of a distance along the ray): a shadow probe toward a light is
    /// blocked exactly then.
    pub fn hit_before(&self, distance_bits: u32) -> (r: bool)
        ensures
            r == (first_hit(self@) matches Some(i) && self@[i].rank() < rank(distance_bits)),
    {
        match self.hit() {
            Some(h) => t_rank(h.t_bits) < t_rank(distance_bits),
            None => false,
        }
    }

    /// Inserts an intersection, keeping the collection in ascending order:
    /// it goes after every entry with an equal `t`.
    pub fn insert(&mut self, intersection: Intersection)
        requires
            old(self).well_formed(),
        ensures
            final(self).well_formed(),
            final(self)@ == insert_sorted(old(self)@, intersection),
            final(self)@.to_multiset() == old(self)@.to_multiset().insert(intersection),
    {
        let ghost s = self@;
        let ghost x = intersection;
        let x_rank = t_rank(intersection.t_bits);
        self.inner.push(intersection);
        let mut i: usize = self.inner.len() - 1;
        assert(self@ =~= s.insert(i as int, x));
        while i > 0 && x_rank < t_rank(self.inner[i - 1].t_bits)
            invariant
                0 <= i <= s.len(),
                sorted(s),
                x == intersection,
                x_rank == x.rank(),
                self@ == s.insert(i as int, x),
                forall|k: int| i <= k < s.len() ==> #[trigger] s[k].rank() > x.rank(),
            decreases i,
        {
            let prev = self.inner[i - 1];
            self.inner.set(i, prev);
            self.inner.set(i - 1, intersection);
            i = i - 1;
            assert(self@ =~= s.insert(i as int, x));
        }
        assert forall|k: int| 0 <= k < i implies #[trigger] s[k].rank() <= x.rank() by {
            if k < i - 1 {
                assert(s[k].rank() <= s[i - 1].rank());
            }
        }
        assert(sorted(self@)) by {
            assert forall|a: int, b: int| 0 <= a < b < self@.len() implies #[trigger] self@[a].rank()
                <= #[trigger] self@[b].rank() by {
                if a < i && b > i {
                    assert(s[a].rank() <= s[b - 1].rank());
                } else if a > i {
                    assert(s[a - 1].rank() <= s[b - 1].rank());
                } else if a < i && b < i {
                    assert(s[a].rank() <= s[b].rank());
                }
            }
        }
        proof {
            lemma_insert_sorted(s, x, i as int);
            vstd::seq_lib::to_multiset_insert(s, i as int, x);
        }
    }

    /// Inserts every intersection of `rhs`, one at a time, keeping the order.
    pub fn merge(&mut self, rhs: IntersectionCollection)
        requires
            old(self).well_formed(),
        ensures
            final(self).well_formed(),
            final(self)@ == insert_all(old(self)@, rhs@),
            final(self)@.to_multiset() == old(self)@.to_multiset().add(rhs@.to_multiset()),
    {
        let ghost start = self@;
        let ghost other = rhs@;
        let entries = rhs.inner;
        let mut i: usize = 0;
        while i < entries.len()
            invariant
                0 <= i <= entries@.len(),
                entries@ == other,
                self.well_formed(),
                self@ == insert_all(start, other.subrange(0, i as int)),
                self@.to_multiset() == start.to_multiset().add(other.subrange(0, i as int).to_multiset()),
            decreases entries@.len() - i,
        {
            self.insert(entries[i]);
            proof {
                let prefix = other.subrange(0, i as int);
                assert(other.subrange(0, i + 1) =~= prefix.push(other[i as int]));
                assert(other.subrange(0, i + 1).drop_last() =~= prefix);
                vstd::seq_lib::to_multiset_build(prefix, other[i as int]);
                assert(self@.to_multiset() =~= start.to_multiset().add(
                    other.subrange(0, i + 1).to_multiset(),
                ));
            }
            i = i + 1;
        }
        assert(other.subrange(0, i as int) =~= other);
    }
}

/// Ordering makes the first non-negative entry the nearest one: no entry in
/// front of the ray has a smaller `t` than the hit, and there is no hit only
/// when every entry lies behind the ray's origin.
pub proof fn lemma_hit_is_nearest(s: Seq<Intersection>)
    requires
        sorted(s),
    ensures
        first_hit(s) matches Some(i) ==> forall|j: int|
            0 <= j < s.len() && #[trigger] s[j].in_front() ==> s[i].rank() <= s[j].rank(),
        first_hit(s) is None ==> forall|j: int| 0 <= j < s.len() ==> !#[trigger] s[j].in_front(),
{
    lemma_first_hit_from(s, 0);
}

/// A ray that starts inside a closed surface meets it once behind its origin
/// and once in front: the hit is the one in front.
pub proof fn lemma_hit_from_inside(s: Seq<Intersection>)
    requires
        s.len() == 2,
        s[0].rank() < 0,
        s[1].in_front(),
    ensures
        first_hit(s) == Some(1int),
{
    assert(first_hit_from(s, 1) == Some(1int));
}

} // verus!
