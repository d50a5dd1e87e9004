use vstd::prelude::*;

use crate::layout::bits::{
    count_below, lemma_bounds16, lemma_ext16, lemma_set16_complement, lemma_set16_difference,
    lemma_set16_finite, lemma_set16_full, lemma_set16_intersect, lemma_set16_single,
    lemma_set16_union, lemma_set16_zero, lemma_single_bound16, pred16, set16, FULL9,
};
use crate::layout::cell_set::CellSet;
use crate::layout::coord::{digit_char, Coord};
use crate::layout::house::{house_of_label, is_house_label, House};
use crate::layout::set_lemmas::{is_least, lemma_len1};
use crate::layout::shape::{house_cells, shape_label, Shape, ShapeTrait};
use crate::layout::text::{is_space, char_is_space, string_push};

verus! {

/// The nine coordinates.
pub open spec fn all_coords() -> Set<nat> {
    Set::new(|i: nat| i < 9)
}

/// The coordinates named by the decimal digits 1..=9 of `n`.
pub open spec fn digits_set(n: int) -> Set<nat>
    decreases n,
{
    if n <= 0 {
        Set::empty()
    } else {
        digits_set(n / 10).insert((n % 10 - 1) as nat)
    }
}

/// Whether every decimal digit of `n` is 1..=9.
pub open spec fn valid_digits(n: int) -> bool
    decreases n,
{
    if n <= 0 {
        n == 0
    } else {
        n % 10 != 0 && valid_digits(n / 10)
    }
}

/// The coordinates named by whitespace-separated house labels of
/// shape `shape`, read from position `i`; `None` if a token is not one.
pub open spec fn house_labels_from(s: Seq<char>, i: int, shape: Shape) -> Option<Set<nat>>
    decreases s.len() - i,
{
    if i < 0 || i >= s.len() {
        Some(Set::empty())
    } else if is_space(s[i]) {
        house_labels_from(s, i + 1, shape)
    } else if i + 1 < s.len() && is_house_label(seq![s[i], s[i + 1]]) && house_of_label(
        seq![s[i], s[i + 1]],
    ).0 == shape && (i + 2 == s.len() || is_space(s[i + 2])) {
        match house_labels_from(s, i + 2, shape) {
            Some(rest) => Some(rest.insert(house_of_label(seq![s[i], s[i + 1]]).1)),
            None => None,
        }
    } else {
        None
    }
}

/// The union of the cells of houses `coords` of shape `shape`.
pub open spec fn cells_of_houses(shape: Shape, coords: Set<nat>) -> Set<nat> {
    Set::new(|i: nat| exists|h: nat| #[trigger] coords.contains(h) && house_cells(shape, h).contains(i))
}

/// The cells of a union of houses of one shape are the cells of either
/// part, and no houses have no cells.
pub proof fn lemma_cells_of_union(shape: Shape, a: Set<nat>, b: Set<nat>)
    ensures
        cells_of_houses(shape, a.union(b)) == cells_of_houses(shape, a).union(cells_of_houses(shape, b)),
        cells_of_houses(shape, Set::empty()) == Set::<nat>::empty(),
{
    assert forall|i: nat| cells_of_houses(shape, a.union(b)).contains(i) implies cells_of_houses(shape, a).union(
        cells_of_houses(shape, b),
    ).contains(i) by {
        let h = choose|h: nat| #[trigger] a.union(b).contains(h) && house_cells(shape, h).contains(i);
        if a.contains(h) {
            assert(cells_of_houses(shape, a).contains(i));
        } else {
            assert(cells_of_houses(shape, b).contains(i));
        }
    }
    assert forall|i: nat| cells_of_houses(shape, a).union(cells_of_houses(shape, b)).contains(i) implies cells_of_houses(
        shape,
        a.union(b),
    ).contains(i) by {
        if cells_of_houses(shape, a).contains(i) {
            let h = choose|h: nat| #[trigger] a.contains(h) && house_cells(shape, h).contains(i);
            assert(a.union(b).contains(h));
        } else {
            let h = choose|h: nat| #[trigger] b.contains(h) && house_cells(shape, h).contains(i);
            assert(a.union(b).contains(h));
        }
    }
    assert(cells_of_houses(shape, a.union(b)) =~= cells_of_houses(shape, a).union(cells_of_houses(shape, b)));
    assert(cells_of_houses(shape, Set::empty()) =~= Set::<nat>::empty());
}

/// Houses of one shape have nine cells each, and none in common: the
/// cells of `n` of them are `9 * n`.
pub proof fn lemma_cells_of_houses_len(shape: Shape, coords: Set<nat>)
    requires
        coords.finite(),
        forall|h: nat| #[trigger] coords.contains(h) ==> h < 9,
    ensures
        cells_of_houses(shape, coords).finite(),
        cells_of_houses(shape, coords).len() == 9 * coords.len(),
    decreases coords.len(),
{
    lemma_cells_of_union(shape, Set::empty(), Set::empty());
    if coords.len() == 0 {
        assert(coords =~= Set::<nat>::empty());
    } else {
        let h = coords.choose();
        let rest = coords.remove(h);
        lemma_cells_of_houses_len(shape, rest);
        lemma_cells_of_union(shape, rest, set![h]);
        assert(rest.union(set![h]) =~= coords);
        assert(cells_of_houses(shape, set![h]) =~= house_cells(shape, h)) by {
            assert forall|i: nat| house_cells(shape, h).contains(i) implies cells_of_houses(shape, set![h]).contains(i) by {
                assert(set![h].contains(h));
            }
        }
        crate::layout::shape::lemma_house_cells_len(shape, h);
        assert(cells_of_houses(shape, rest).disjoint(house_cells(shape, h))) by {
            assert forall|i: nat| cells_of_houses(shape, rest).contains(i) implies !house_cells(shape, h).contains(i) by {
                let g = choose|g: nat| #[trigger] rest.contains(g) && house_cells(shape, g).contains(i);
            }
        }
        vstd::set_lib::lemma_set_disjoint_lens(cells_of_houses(shape, rest), house_cells(shape, h));
    }
}

/// A set of houses of one shape covers nine cells per house.
pub proof fn lemma_house_set_cells_len(a: HouseSet)
    ensures
        cells_of_houses(a@.0, a@.1).len() == 9 * a@.1.len(),
{
    lemma_house_set_bounded(a);
    lemma_cells_of_houses_len(a@.0, a@.1);
}

/// The digits of the members in increasing order.
pub open spec fn digits_below(s: Set<nat>, n: nat) -> Seq<char>
    decreases n,
{
    if n == 0 {
        Seq::empty()
    } else {
        digits_below(s, (n - 1) as nat) + if s.contains((n - 1) as nat) {
            seq![digit_char((n - 1) as nat)]
        } else {
            Seq::empty()
        }
    }
}

/// A set of houses of one shape, one bit per coordinate.
#[derive(Clone, Copy, Debug, Default, Hash, PartialEq, Eq, Structural, PartialOrd, Ord)]
pub struct HouseSet {
    shape: Shape,
    bits: u16,
}

impl View for HouseSet {
    type V = (Shape, Set<nat>);

    closed spec fn view(&self) -> (Shape, Set<nat>) {
        (self.shape, set16(self.bits))
    }
}

/// Every house set holds only coordinates 0..9 and is finite.
pub broadcast proof fn lemma_house_set_bounded(s: HouseSet)
    ensures
        #![trigger s@]
        s@.1.finite(),
        s@.1.len() <= 9,
        forall|i: nat| #[trigger] s@.1.contains(i) ==> i < 9,
{
    lemma_set16_finite(s.bits);
}

/// Behaviour shared by sets of houses.
pub trait HouseSetLike: Copy + Sized {
    spec fn set_view(&self) -> (Shape, Set<nat>);

    fn empty(shape: Shape) -> (r: Self)
        ensures
            r.set_view() == (shape, Set::<nat>::empty()),
    ;

    fn full(shape: Shape) -> (r: Self)
        ensures
            r.set_view() == (shape, all_coords()),
    ;

    fn from_bits(shape: Shape, bits: u16) -> (r: Self)
        requires
            bits <= FULL9,
        ensures
            r.set_view() == (shape, set16(bits)),
    ;

    fn from_coords(shape: Shape, coords: i32) -> (r: Self)
        requires
            valid_digits(coords as int),
        ensures
            r.set_view() == (shape, digits_set(coords as int)),
    ;

    fn shape(&self) -> (r: Shape)
        ensures
            r == self.set_view().0,
    ;

    fn is_empty(&self) -> (r: bool)
        ensures
            r == (self.set_view().1 == Set::<nat>::empty()),
    ;

    fn is_full(&self) -> (r: bool)
        ensures
            r == (self.set_view().1 == all_coords()),
    ;

    fn len(&self) -> (r: usize)
        ensures
            r == self.set_view().1.len(),
    ;

    fn has_coord(&self, coord: Coord) -> (r: bool)
        ensures
            r == self.set_view().1.contains(coord@),
    ;

    fn union(self, other: Self) -> (r: Self)
        requires
            self.set_view().0 == other.set_view().0,
        ensures
            r.set_view() == (self.set_view().0, self.set_view().1.union(other.set_view().1)),
    ;

    fn intersect(self, other: Self) -> (r: Self)
        requires
            self.set_view().0 == other.set_view().0,
        ensures
            r.set_view() == (self.set_view().0, self.set_view().1.intersect(other.set_view().1)),
    ;

    fn minus(self, other: Self) -> (r: Self)
        requires
            self.set_view().0 == other.set_view().0,
        ensures
            r.set_view() == (self.set_view().0, self.set_view().1.difference(other.set_view().1)),
    ;

    fn inverted(self) -> (r: Self)
        ensures
            r.set_view() == (self.set_view().0, all_coords().difference(self.set_view().1)),
    ;

    fn has_any(self, other: Self) -> (r: bool)
        requires
            self.set_view().0 == other.set_view().0,
        ensures
            r == !self.set_view().1.disjoint(other.set_view().1),
    ;

    fn has_all(self, subset: Self) -> (r: bool)
        ensures
            r == (self.set_view().0 == subset.set_view().0 && subset.set_view().1.subset_of(
                self.set_view().1,
            )),
    ;

    fn is_subset_of(self, superset: Self) -> (r: bool)
        ensures
            r == (self.set_view().0 == superset.set_view().0 && self.set_view().1.subset_of(
                superset.set_view().1,
            )),
    ;
}

impl HouseSetLike for HouseSet {
    open spec fn set_view(&self) -> (Shape, Set<nat>) {
        self@
    }

    fn empty(shape: Shape) -> (r: Self) {
        HouseSet::empty(shape)
    }

    fn full(shape: Shape) -> (r: Self) {
        HouseSet::full(shape)
    }

    fn from_bits(shape: Shape, bits: u16) -> (r: Self) {
        HouseSet::from_bits(shape, bits)
    }

    fn from_coords(shape: Shape, coords: i32) -> (r: Self) {
        HouseSet::from_coords(shape, coords)
    }

    fn shape(&self) -> (r: Shape) {
        self.shape
    }

    fn is_empty(&self) -> (r: bool) {
        let b: u16 = self.bits();
        proof {
            lemma_set16_zero();
            if self@.1 == Set::<nat>::empty() {
                lemma_ext16(b, 0);
            }
        }
        b == 0
    }

    fn is_full(&self) -> (r: bool) {
        let b: u16 = self.bits();
        proof {
            lemma_set16_full();
            if self@.1 == all_coords() {
                lemma_ext16(b, FULL9);
            }
        }
        b == FULL9
    }

    fn len(&self) -> (r: usize) {
        let b: u16 = self.bits();
        let mut count: usize = 0;
        let mut i: u8 = 0;
        while i < 9
            invariant
                i <= 9,
                count == count_below(pred16(b), i as nat),
                count <= i,
            decreases 9 - i,
        {
            if (b >> (i as u16)) & 1u16 == 1u16 {
                count = count + 1;
            }
            i = i + 1;
        }
        proof {
            lemma_set16_finite(b);
        }
        count
    }

    fn has_coord(&self, coord: Coord) -> (r: bool) {
        let b: u16 = self.bits();
        let i: u8 = coord.index();
        (b >> (i as u16)) & 1u16 == 1u16
    }

    fn union(self, other: Self) -> (r: Self) {
        let a: u16 = self.bits();
        let b: u16 = other.bits();
        proof {
            lemma_set16_union(a, b);
            lemma_bounds16(a, b);
        }
        HouseSet { shape: self.shape, bits: a | b }
    }

    fn intersect(self, other: Self) -> (r: Self) {
        let a: u16 = self.bits();
        let b: u16 = other.bits();
        proof {
            lemma_set16_intersect(a, b);
            lemma_bounds16(a, b);
        }
        HouseSet { shape: self.shape, bits: a & b }
    }

    fn minus(self, other: Self) -> (r: Self) {
        let a: u16 = self.bits();
        let b: u16 = other.bits();
        proof {
            lemma_set16_difference(a, b);
            lemma_bounds16(a, b);
        }
        HouseSet { shape: self.shape, bits: a & !b }
    }

    fn inverted(self) -> (r: Self) {
        let a: u16 = self.bits();
        proof {
            lemma_set16_complement(a);
            lemma_set16_full();
            lemma_bounds16(a, a);
        }
        HouseSet { shape: self.shape, bits: !a & FULL9 }
    }

    fn has_any(self, other: Self) -> (r: bool) {
        let i = HouseSetLike::intersect(self, other);
        let e = HouseSetLike::is_empty(&i);
        proof {
            if e {
                assert forall|x: nat| self@.1.contains(x) implies !other@.1.contains(x) by {
                    assert(!i@.1.contains(x));
                }
            } else {
                assert(!(i@.1 =~= Set::<nat>::empty()));
            }
        }
        !e
    }

    fn has_all(self, subset: Self) -> (r: bool) {
        if self.shape != subset.shape {
            return false;
        }
        let i = HouseSetLike::intersect(self, subset);
        proof {
            if subset@.1.subset_of(self@.1) {
                assert(i@.1 =~= subset@.1);
            }
        }
        i.same_coords(&subset)
    }

    fn is_subset_of(self, superset: Self) -> (r: bool) {
        if self.shape != superset.shape {
            return false;
        }
        let i = HouseSetLike::intersect(self, superset);
        proof {
            if self@.1.subset_of(superset@.1) {
                assert(i@.1 =~= self@.1);
            }
        }
        i.same_coords(&self)
    }
}

impl HouseSet {
    #[verifier::type_invariant]
    spec fn inv(self) -> bool {
        self.bits <= FULL9
    }

    fn bits(&self) -> (r: u16)
        ensures
            set16(r) == self@.1,
            r <= FULL9,
    {
        proof {
            use_type_invariant(self);
        }
        self.bits
    }

    /// Whether both sets hold the same coordinates.
    fn same_coords(&self, other: &HouseSet) -> (r: bool)
        ensures
            r == (self@.1 == other@.1),
    {
        let a: u16 = self.bits();
        let b: u16 = other.bits();
        proof {
            if self@.1 == other@.1 {
                lemma_ext16(a, b);
            }
        }
        a == b
    }

    /// Whether both sets have the same shape and the same coordinates.
    pub fn equals(&self, other: &HouseSet) -> (r: bool)
        ensures
            r == (self@ == other@),
    {
        self.shape == other.shape && self.same_coords(other)
    }

    pub fn empty(shape: Shape) -> (r: Self)
        ensures
            r@ == (shape, Set::<nat>::empty()),
    {
        proof {
            lemma_set16_zero();
        }
        HouseSet { shape, bits: 0 }
    }

    pub fn full(shape: Shape) -> (r: Self)
        ensures
            r@ == (shape, all_coords()),
    {
        proof {
            lemma_set16_full();
        }
        HouseSet { shape, bits: FULL9 }
    }

    pub fn from_bits(shape: Shape, bits: u16) -> (r: Self)
        requires
            bits <= FULL9,
        ensures
            r@ == (shape, set16(bits)),
    {
        HouseSet { shape, bits }
    }

    /// The houses named by the decimal digits of `coords`, so that 147
    /// stands for the first, fourth and seventh.
    pub fn from_coords(shape: Shape, coords: i32) -> (r: Self)
        requires
            valid_digits(coords as int),
        ensures
            r@ == (shape, digits_set(coords as int)),
    {
        let mut set = HouseSet::empty(shape);
        let mut n: i32 = coords;
        while n > 0
            invariant
                valid_digits(n as int),
                set@.0 == shape,
                set@.1.union(digits_set(n as int)) == digits_set(coords as int),
                n >= 0,
            decreases n,
        {
            let d: i32 = n % 10;
            let c = Coord::new((d - 1) as u8);
            proof {
                assert(set@.1.insert(c@).union(digits_set((n / 10) as int)) =~= set@.1.union(
                    digits_set(n as int),
                ));
            }
            set = set.with_coord(c);
            n = n / 10;
        }
        proof {
            assert(set@.1.union(Set::<nat>::empty()) =~= set@.1);
        }
        set
    }

    /// The houses named by whitespace-separated labels such as "R1 R2".
    pub fn from_labels(shape: Shape, labels: &str) -> (r: Self)
        requires
            house_labels_from(labels@, 0, shape) is Some,
        ensures
            r@ == (shape, house_labels_from(labels@, 0, shape)->0),
    {
        let n: usize = labels.unicode_len();
        let mut set = HouseSet::empty(shape);
        let mut i: usize = 0;
        while i < n
            invariant
                n == labels@.len(),
                i <= n + 1,
                set@.0 == shape,
                house_labels_from(labels@, i as int, shape) matches Some(rest)
                    && house_labels_from(labels@, 0, shape) == Some(set@.1.union(rest)),
            decreases n + 1 - i,
        {
            let ch: char = labels.get_char(i);
            if char_is_space(ch) {
                i = i + 1;
                continue;
            }
            let d: char = labels.get_char(i + 1);
            let coord = Coord::new((d as u32 - 49u32) as u8);
            proof {
                let rest = house_labels_from(labels@, i as int + 2, shape)->0;
                assert(set@.1.union(rest.insert(coord@)) =~= set@.1.insert(coord@).union(rest));
            }
            set = set.with_coord(coord);
            i = i + 2;
        }
        proof {
            assert(set@.1.union(Set::<nat>::empty()) =~= set@.1);
        }
        set
    }

    pub fn with_coord(&self, coord: Coord) -> (r: Self)
        ensures
            r@ == (self@.0, self@.1.insert(coord@)),
    {
        let b: u16 = self.bits();
        let i: u8 = coord.index();
        proof {
            lemma_set16_single(i as u16);
            lemma_single_bound16(i as u16);
            lemma_set16_union(b, 1u16 << (i as u16));
            lemma_bounds16(b, 1u16 << (i as u16));
            assert(set16(b | (1u16 << (i as u16))) =~= self@.1.insert(coord@));
        }
        HouseSet { shape: self.shape, bits: b | (1u16 << (i as u16)) }
    }

    pub fn without_coord(&self, coord: Coord) -> (r: Self)
        ensures
            r@ == (self@.0, self@.1.remove(coord@)),
    {
        let b: u16 = self.bits();
        let i: u8 = coord.index();
        proof {
            lemma_set16_single(i as u16);
            lemma_single_bound16(i as u16);
            lemma_set16_difference(b, 1u16 << (i as u16));
            lemma_bounds16(b, 1u16 << (i as u16));
            assert(set16(b & !(1u16 << (i as u16))) =~= self@.1.remove(coord@));
        }
        HouseSet { shape: self.shape, bits: b & !(1u16 << (i as u16)) }
    }

    pub fn add_coord(&mut self, coord: Coord)
        ensures
            final(self)@ == (old(self)@.0, old(self)@.1.insert(coord@)),
    {
        *self = self.with_coord(coord);
    }

    pub fn remove_coord(&mut self, coord: Coord)
        ensures
            final(self)@ == (old(self)@.0, old(self)@.1.remove(coord@)),
    {
        *self = self.without_coord(coord);
    }

    /// Whether `house`, of the set's shape, is a member.
    pub fn has(&self, house: House) -> (r: bool)
        requires
            house@.0 == self@.0,
        ensures
            r == self@.1.contains(house@.1),
    {
        self.has_coord(house.coord())
    }

    /// The set with `house`, of the set's shape, added.
    pub fn with(&self, house: House) -> (r: Self)
        requires
            house@.0 == self@.0,
        ensures
            r@ == (self@.0, self@.1.insert(house@.1)),
    {
        self.with_coord(house.coord())
    }

    /// The set with `house`, of the set's shape, removed.
    pub fn without(&self, house: House) -> (r: Self)
        requires
            house@.0 == self@.0,
        ensures
            r@ == (self@.0, self@.1.remove(house@.1)),
    {
        self.without_coord(house.coord())
    }

    /// Adds the coordinate of `house`, whatever its shape.
    pub fn add(&mut self, house: House)
        ensures
            final(self)@ == (old(self)@.0, old(self)@.1.insert(house@.1)),
    {
        self.add_coord(house.coord());
    }

    /// Removes the coordinate of `house`, whatever its shape.
    pub fn remove(&mut self, house: House)
        ensures
            final(self)@ == (old(self)@.0, old(self)@.1.remove(house@.1)),
    {
        self.remove_coord(house.coord());
    }

    pub fn union_with(&mut self, other: Self)
        requires
            old(self)@.0 == other@.0,
        ensures
            final(self)@ == (old(self)@.0, old(self)@.1.union(other@.1)),
    {
        *self = HouseSetLike::union(*self, other);
    }

    pub fn intersect_with(&mut self, other: Self)
        requires
            old(self)@.0 == other@.0,
        ensures
            final(self)@ == (old(self)@.0, old(self)@.1.intersect(other@.1)),
    {
        *self = HouseSetLike::intersect(*self, other);
    }

    pub fn subtract(&mut self, other: Self)
        requires
            old(self)@.0 == other@.0,
        ensures
            final(self)@ == (old(self)@.0, old(self)@.1.difference(other@.1)),
    {
        *self = HouseSetLike::minus(*self, other);
    }

    pub fn invert(&mut self)
        ensures
            final(self)@ == (old(self)@.0, all_coords().difference(old(self)@.1)),
    {
        *self = HouseSetLike::inverted(*self);
    }

    /// All cells of the member houses.
    pub fn cells(&self) -> (r: CellSet)
        ensures
            r@ == cells_of_houses(self@.0, self@.1),
    {
        let mut acc = CellSet::empty();
        let mut i: u8 = 0;
        while i < 9
            invariant
                i <= 9,
                acc@ == cells_of_houses(self@.0, self@.1.filter(|h: nat| h < i)),
            decreases 9 - i,
        {
            let c = Coord::new(i);
            let ghost before = self@.1.filter(|h: nat| h < i);
            let ghost after = self@.1.filter(|h: nat| h < i + 1);
            if self.has_coord(c) {
                let cells = House::new(self.shape, c).cells();
                proof {
                    assert(after =~= before.insert(i as nat));
                    assert forall|x: nat| #[trigger] cells_of_houses(self@.0, after).contains(x)
                        == acc@.union(cells@).contains(x) by {
                        if cells_of_houses(self@.0, after).contains(x) {
                            let h = choose|h: nat| #[trigger] after.contains(h) && house_cells(
                                self@.0,
                                h,
                            ).contains(x);
                            if h != i {
                                assert(before.contains(h));
                            }
                        }
                        if acc@.contains(x) {
                            let h = choose|h: nat| #[trigger] before.contains(h) && house_cells(
                                self@.0,
                                h,
                            ).contains(x);
                            assert(after.contains(h));
                        }
                        if cells@.contains(x) {
                            assert(after.contains(i as nat));
                        }
                    }
                    assert(acc@.union(cells@) =~= cells_of_houses(self@.0, after));
                }
                acc = acc.union(cells);
            } else {
                proof {
                    assert(after =~= before);
                }
            }
            i = i + 1;
        }
        proof {
            lemma_house_set_bounded(*self);
            assert(self@.1.filter(|h: nat| h < 9) =~= self@.1);
        }
        acc
    }

    /// An iterator over the member houses in coordinate order.
    pub fn iter(&self) -> (r: Iter)
        ensures
            r@ == self@,
    {
        Iter { shape: self.shape, coords: self.bits() }
    }

    /// The member houses in coordinate order.
    pub fn to_vec(&self) -> (r: Vec<House>)
        ensures
            forall|i: int, j: int| 0 <= i < j < r.len() ==> r[i]@.1 < r[j]@.1,
            forall|i: int| 0 <= i < r.len() ==> (#[trigger] r[i])@.0 == self@.0 && self@.1.contains(r[i]@.1),
            forall|x: nat| self@.1.contains(x) ==> exists|i: int| 0 <= i < r.len() && (#[trigger] r[i])@.1 == x,
            r.len() == self@.1.len(),
    {
        let b: u16 = self.bits();
        let mut v: Vec<House> = Vec::new();
        let mut i: u8 = 0;
        while i < 9
            invariant
                i <= 9,
                set16(b) == self@.1,
                forall|k: int, j: int| 0 <= k < j < v.len() ==> v[k]@.1 < v[j]@.1,
                forall|k: int| 0 <= k < v.len() ==> (#[trigger] v[k])@.0 == self@.0 && self@.1.contains(v[k]@.1) && v[k]@.1 < i,
                forall|x: nat| x < i && self@.1.contains(x) ==> exists|k: int| 0 <= k < v.len() && (#[trigger] v[k])@.1 == x,
                v.len() == count_below(pred16(b), i as nat),
            decreases 9 - i,
        {
            let ghost old_v = v@;
            if (b >> (i as u16)) & 1u16 == 1u16 {
                v.push(House::new(self.shape, Coord::new(i)));
            }
            proof {
                assert forall|x: nat| x < i + 1 && self@.1.contains(x) implies exists|k: int|
                    0 <= k < v.len() && (#[trigger] v[k])@.1 == x by {
                    if x == i {
                        assert(v[v.len() - 1]@.1 == x);
                    } else {
                        let k = choose|k: int| 0 <= k < old_v.len() && (#[trigger] old_v[k])@.1 == x;
                        assert(v[k] == old_v[k]);
                    }
                }
            }
            i = i + 1;
        }
        proof {
            lemma_set16_finite(b);
        }
        v
    }

    /// The lowest member, if any.
    fn first_coord(&self) -> (r: Option<Coord>)
        ensures
            match r {
                Some(c) => is_least(self@.1, c@),
                None => self@.1 == Set::<nat>::empty(),
            },
    {
        let b: u16 = self.bits();
        let mut i: u8 = 0;
        while i < 9
            invariant
                i <= 9,
                set16(b) == self@.1,
                forall|j: nat| j < i ==> !#[trigger] self@.1.contains(j),
            decreases 9 - i,
        {
            if (b >> (i as u16)) & 1u16 == 1u16 {
                return Some(Coord::new(i));
            }
            i = i + 1;
        }
        proof {
            lemma_house_set_bounded(*self);
            assert(self@.1 =~= Set::<nat>::empty());
        }
        None
    }

    /// The only member, if there is exactly one.
    pub fn as_single(&self) -> (r: Option<House>)
        ensures
            r is Some <==> self@.1.len() == 1,
            r matches Some(h) ==> h@.0 == self@.0 && self@.1 == set![h@.1],
    {
        if HouseSetLike::len(self) != 1 {
            None
        } else {
            let c = self.first_coord().unwrap();
            proof {
                lemma_house_set_bounded(*self);
                lemma_len1(self@.1, c@);
            }
            Some(House::new(self.shape, c))
        }
    }

    /// The two members in order, if there are exactly two.
    pub fn as_pair(&self) -> (r: Option<(House, House)>)
        ensures
            r is Some <==> self@.1.len() == 2,
            r matches Some((a, b)) ==> a@.0 == self@.0 && b@.0 == self@.0 && a@.1 < b@.1 && self@.1
                == set![a@.1, b@.1],
    {
        if HouseSetLike::len(self) != 2 {
            None
        } else {
            let first = self.first_coord().unwrap();
            let rest = self.without_coord(first);
            proof {
                lemma_house_set_bounded(*self);
                lemma_house_set_bounded(rest);
            }
            let second = rest.first_coord().unwrap();
            proof {
                lemma_len1(rest@.1, second@);
                assert(self@.1 =~= set![first@, second@]);
            }
            Some((House::new(self.shape, first), House::new(self.shape, second)))
        }
    }

    /// The three members in order, if there are exactly three.
    pub fn as_triple(&self) -> (r: Option<(House, House, House)>)
        ensures
            r is Some <==> self@.1.len() == 3,
            r matches Some((a, b, c)) ==> a@.0 == self@.0 && b@.0 == self@.0 && c@.0 == self@.0
                && a@.1 < b@.1 && b@.1 < c@.1 && self@.1 == set![a@.1, b@.1, c@.1],
    {
        if HouseSetLike::len(self) != 3 {
            None
        } else {
            let first = self.first_coord().unwrap();
            let rest = self.without_coord(first);
            proof {
                lemma_house_set_bounded(*self);
                lemma_house_set_bounded(rest);
            }
            let second = rest.first_coord().unwrap();
            let rest2 = rest.without_coord(second);
            proof {
                lemma_house_set_bounded(rest2);
            }
            let third = rest2.first_coord().unwrap();
            proof {
                lemma_len1(rest2@.1, third@);
                assert(self@.1 =~= set![first@, second@, third@]);
            }
            Some(
                (
                    House::new(self.shape, first),
                    House::new(self.shape, second),
                    House::new(self.shape, third),
                ),
            )
        }
    }

    /// "HouseSet(", the shape's label, a space, the member digits, ")".
    pub fn debug(&self) -> (r: String)
        ensures
            r@ == seq!['H', 'o', 'u', 's', 'e', 'S', 'e', 't', '('] + shape_label(self@.0) + seq![' ']
                + digits_below(self@.1, 9) + seq![')'],
    {
        let mut s = String::from_str("HouseSet(");
        s.append(ShapeTrait::label(&self.shape));
        string_push(&mut s, ' ');
        let ghost head = s@;
        let mut i: u8 = 0;
        while i < 9
            invariant
                i <= 9,
                s@ == head + digits_below(self@.1, i as nat),
            decreases 9 - i,
        {
            let c = Coord::new(i);
            if self.has_coord(c) {
                string_push(&mut s, c.label());
            }
            proof {
                assert(s@ =~= head + digits_below(self@.1, (i + 1) as nat));
            }
            i = i + 1;
        }
        string_push(&mut s, ')');
        proof {
            reveal_strlit("HouseSet(");
            assert(s@ =~= seq!['H', 'o', 'u', 's', 'e', 'S', 'e', 't', '('] + shape_label(self@.0)
                + seq![' '] + digits_below(self@.1, 9) + seq![')']);
        }
        s
    }
}

/// An iterator over the houses of a set in coordinate order.
pub struct Iter {
    shape: Shape,
    coords: u16,
}

impl View for Iter {
    type V = (Shape, Set<nat>);

    closed spec fn view(&self) -> (Shape, Set<nat>) {
        (self.shape, set16(self.coords))
    }
}

impl Iter {
    #[verifier::type_invariant]
    spec fn inv(self) -> bool {
        self.coords <= FULL9
    }

    /// The remaining house with the lowest coordinate, which is removed.
    pub fn next(&mut self) -> (r: Option<House>)
        ensures
            match r {
                Some(h) => h@.0 == old(self)@.0 && is_least(old(self)@.1, h@.1) && final(self)@ == (
                    old(self)@.0,
                    old(self)@.1.remove(h@.1),
                ),
                None => old(self)@.1 == Set::<nat>::empty() && final(self)@ == old(self)@,
            },
    {
        proof {
            use_type_invariant(&*self);
        }
        let set = HouseSet { shape: self.shape, bits: self.coords };
        match set.first_coord() {
            Some(c) => {
                let rest = set.without_coord(c);
                self.coords = rest.bits();
                Some(House::new(self.shape, c))
            },
            None => None,
        }
    }
}

} // verus!
