use vstd::prelude::*;

use crate::layout::bits::{
    count_below, lemma_bounds128, lemma_ext128, lemma_set128_complement, lemma_set128_difference,
    lemma_set128_finite, lemma_set128_full, lemma_set128_intersect, lemma_set128_single,
    lemma_set128_union, lemma_set128_zero, lemma_single_bound128, pred128, set128, FULL81,
};
use crate::layout::bit::{cell_bit_index, is_cell_bit, Bit};
use crate::layout::cell::{cell_label, index_of_label, lemma_cell_view_injective, peers_of, Cell};
use crate::layout::coord::Coord;
use crate::layout::house::houses_of_cells;
use crate::layout::house_set::HouseSet;
use crate::layout::set_lemmas::{is_least, lemma_len1};
use crate::layout::shape::{house_of, Shape};
use crate::layout::text::{push_two_digits, string_push, is_space, char_is_space, two_digits};

verus! {

broadcast use lemma_cell_view_injective;

/// A set of cells, one bit per cell.
#[derive(Clone, Copy, Debug, Hash, PartialEq, Eq, Structural, PartialOrd, Ord)]
pub struct CellSet {
    bits: u128,
}

impl View for CellSet {
    type V = Set<nat>;

    closed spec fn view(&self) -> Set<nat> {
        set128(self.bits)
    }
}

/// All 81 cell indices.
pub open spec fn all_cells() -> Set<nat> {
    Set::new(|i: nat| i < 81)
}

/// There are 81 cell indices.
pub proof fn lemma_all_cells_len()
    ensures
        all_cells().finite(),
        all_cells().len() == 81,
{
    lemma_indices_below(81);
}

/// The indices below `n` are `n` of them.
pub proof fn lemma_indices_below(n: nat)
    ensures
        Set::new(|i: nat| i < n).finite(),
        Set::new(|i: nat| i < n).len() == n,
    decreases n,
{
    if n == 0 {
        assert(Set::new(|i: nat| i < n) =~= Set::<nat>::empty());
    } else {
        let m = (n - 1) as nat;
        lemma_indices_below(m);
        assert(Set::new(|i: nat| i < n) =~= Set::new(|i: nat| i < m).insert(m));
    }
}

/// Every cell set holds only cell indices and is finite.
pub broadcast proof fn lemma_cell_set_bounded(s: CellSet)
    ensures
        #![trigger s@]
        s@.finite(),
        s@.len() <= 81,
        forall|i: nat| #[trigger] s@.contains(i) ==> i < 81,
{
    lemma_set128_finite(s.bits);
}

/// A cell set is empty exactly when it has no member, full exactly when it
/// has all 81, and no member is 81 or more. (That two sets with the same
/// members are equal is stated by `equals`.)
pub proof fn lemma_cell_set_members(a: CellSet)
    ensures
        (a@ == Set::<nat>::empty()) == (a@.len() == 0),
        (a@ == all_cells()) == (a@.len() == 81),
        forall|i: nat| #[trigger] a@.contains(i) ==> i < 81,
{
    lemma_cell_set_bounded(a);
    lemma_all_cells_len();
    vstd::set_lib::lemma_set_empty_equivalency_len(a@);
    if a@.len() == 81 {
        assert(a@.subset_of(all_cells()));
        vstd::set_lib::lemma_subset_equality(a@, all_cells());
    }
}

/// Whether all members of `cells` lie in one house of shape `s`.
pub open spec fn in_one_house(cells: Set<nat>, s: Shape) -> bool {
    forall|i: nat, j: nat|
        #![trigger cells.contains(i), cells.contains(j)]
        cells.contains(i) && cells.contains(j) ==> house_of(s, i) == house_of(s, j)
}

/// Whether `pattern` may be read as a cell pattern from position `i` on,
/// `c` cells having been counted so far.
pub open spec fn pattern_from(s: Seq<char>, i: int, c: nat, acc: Set<nat>) -> Option<Set<nat>>
    decreases s.len() - i,
{
    if i < 0 || i >= s.len() {
        Some(acc)
    } else {
        let ch = s[i];
        if ch == ' ' || ch == '\r' || ch == '\n' || ch == '|' || ch == '_' {
            pattern_from(s, i + 1, c, acc)
        } else if c >= 255 {
            None
        } else if '1' <= ch && ch <= '9' {
            if c < 81 {
                pattern_from(s, i + 1, c + 1, acc.insert(c))
            } else {
                None
            }
        } else {
            pattern_from(s, i + 1, c + 1, acc)
        }
    }
}

/// The cells named in a whitespace-separated list of labels, read from
/// position `i` on; `None` when some token is not a cell label.
pub open spec fn labels_from(s: Seq<char>, i: int) -> Option<Set<nat>>
    decreases s.len() - i,
{
    if i < 0 || i >= s.len() {
        Some(Set::empty())
    } else if is_space(s[i]) {
        labels_from(s, i + 1)
    } else if i + 1 < s.len() && index_of_label(s[i], s[i + 1]) is Some && (i + 2 == s.len()
        || is_space(s[i + 2])) {
        match labels_from(s, i + 2) {
            Some(rest) => Some(rest.insert(index_of_label(s[i], s[i + 1])->0)),
            None => None,
        }
    } else {
        None
    }
}

/// A cell's label reads back as the cell, and holds no space.
proof fn lemma_label_reads_back(x: nat)
    requires
        x < 81,
    ensures
        cell_label(x).len() == 2,
        index_of_label(cell_label(x)[0], cell_label(x)[1]) == Some(x),
        !is_space(cell_label(x)[0]),
        !is_space(cell_label(x)[1]),
{
    let r = x / 9;
    let c = x % 9;
    assert(x == r * 9 + c);
    assert(r < 9 && c < 9);
}

/// A list of labels followed by a space and one more label reads as the
/// cells of the list and that cell, from any position in the list.
proof fn lemma_labels_append(a: Seq<char>, x: nat, i: int)
    requires
        x < 81,
        0 <= i <= a.len(),
    ensures
        labels_from(a + seq![' '] + cell_label(x), i) == match labels_from(a, i) {
            Some(cells) => Some(cells.insert(x)),
            None => None,
        },
    decreases a.len() - i,
{
    let b = seq![' '] + cell_label(x);
    let s = a + b;
    lemma_label_reads_back(x);
    assert(s =~= a + seq![' '] + cell_label(x));
    assert(s.len() == a.len() + 3);
    assert forall|k: int| 0 <= k < a.len() implies s[k] == a[k] by {}
    assert(s[a.len() as int] == ' ');
    assert(s[a.len() as int + 1] == cell_label(x)[0]);
    assert(s[a.len() as int + 2] == cell_label(x)[1]);
    if i == a.len() {
        assert(labels_from(s, i + 3) == Some(Set::<nat>::empty()));
        assert(labels_from(s, i + 1) == Some(Set::<nat>::empty().insert(x)));
    } else {
        lemma_labels_append(a, x, i + 1);
        if i + 2 <= a.len() {
            lemma_labels_append(a, x, i + 2);
        }
        if i + 1 == a.len() {
            assert(index_of_label(s[i], s[i + 1]) is None);
        }
    }
}

/// The cells below `n`, listed by their labels, read back as themselves.
proof fn lemma_labels_below_read(cells: Set<nat>, n: nat)
    requires
        n <= 81,
    ensures
        labels_from(labels_of_below(cells, n), 0) == Some(cells.filter(|x: nat| x < n)),
        labels_of_below(cells, n).len() == 0 <==> cells.filter(|x: nat| x < n) == Set::<nat>::empty(),
    decreases n,
{
    if n == 0 {
        assert(cells.filter(|x: nat| x < n) =~= Set::<nat>::empty());
    } else {
        let m = (n - 1) as nat;
        lemma_labels_below_read(cells, m);
        let prev = labels_of_below(cells, m);
        if cells.contains(m) {
            lemma_label_reads_back(m);
            assert(cells.filter(|x: nat| x < n) =~= cells.filter(|x: nat| x < m).insert(m));
            if prev.len() == 0 {
                let t = cell_label(m);
                assert(labels_from(t, 2) == Some(Set::<nat>::empty()));
                assert(labels_from(t, 0) == Some(Set::<nat>::empty().insert(m)));
                assert(Set::<nat>::empty().insert(m) =~= cells.filter(|x: nat| x < m).insert(m));
            } else {
                lemma_labels_append(prev, m, 0);
            }
            assert(cells.filter(|x: nat| x < n).contains(m));
        } else {
            assert(cells.filter(|x: nat| x < n) =~= cells.filter(|x: nat| x < m));
        }
    }
}

/// A set of cells written as its labels reads back as the same set: the
/// text of `label_string`, read by `from_str`, gives the set again.
pub proof fn lemma_labels_round_trip(cells: Set<nat>)
    requires
        forall|x: nat| #[trigger] cells.contains(x) ==> x < 81,
    ensures
        labels_from(labels_of_below(cells, 81), 0) == Some(cells),
{
    lemma_labels_below_read(cells, 81);
    assert(cells.filter(|x: nat| x < 81) =~= cells);
}

/// The pattern string of a set: '1' for members, '.' for the others.
pub open spec fn pattern_of(s: Set<nat>) -> Seq<char> {
    Seq::new(81, |i: int| if s.contains(i as nat) { '1' } else { '.' })
}

/// The bit string of a set, cell A1 first.
pub open spec fn bit_string_of(s: Set<nat>) -> Seq<char> {
    Seq::new(81, |i: int| if s.contains(i as nat) { '1' } else { '0' })
}

/// The labels of the members in index order, separated by spaces.
pub open spec fn labels_of_below(s: Set<nat>, n: nat) -> Seq<char>
    decreases n,
{
    if n == 0 {
        Seq::empty()
    } else {
        let prev = labels_of_below(s, (n - 1) as nat);
        if s.contains((n - 1) as nat) {
            if prev.len() == 0 {
                cell_label((n - 1) as nat)
            } else {
                prev + seq![' '] + cell_label((n - 1) as nat)
            }
        } else {
            prev
        }
    }
}

impl Default for CellSet {
    fn default() -> (r: Self)
        ensures
            r@ == Set::<nat>::empty(),
    {
        Self::empty()
    }
}

impl CellSet {
    #[verifier::type_invariant]
    spec fn inv(self) -> bool {
        self.bits <= FULL81
    }

    fn from_bits(bits: u128) -> (r: Self)
        requires
            bits <= FULL81,
        ensures
            r@ == set128(bits),
    {
        CellSet { bits }
    }

    fn bits(&self) -> (r: u128)
        ensures
            set128(r) == self@,
            r <= FULL81,
            r == self.bits,
    {
        proof {
            use_type_invariant(self);
        }
        self.bits
    }

    pub fn empty() -> (r: Self)
        ensures
            r@ == Set::<nat>::empty(),
    {
        proof {
            lemma_set128_zero();
        }
        CellSet { bits: 0 }
    }

    pub fn full() -> (r: Self)
        ensures
            r@ == all_cells(),
    {
        proof {
            lemma_set128_full();
        }
        CellSet { bits: FULL81 }
    }

    /// The cells of a pattern: each '1'..'9' marks a member, every other
    /// character but ' ', '\r', '\n', '|' and '_' stands for a non-member.
    pub fn new_from_pattern(puzzle: &str) -> (r: Self)
        requires
            pattern_from(puzzle@, 0, 0, Set::empty()) is Some,
        ensures
            pattern_from(puzzle@, 0, 0, Set::empty()) == Some(r@),
    {
        let n: usize = puzzle.unicode_len();
        let mut bits: u128 = 0;
        let mut c: u8 = 0;
        let mut i: usize = 0;
        proof {
            lemma_set128_zero();
        }
        while i < n
            invariant
                n == puzzle@.len(),
                i <= n,
                bits <= FULL81,
                pattern_from(puzzle@, i as int, c as nat, set128(bits)) == pattern_from(
                    puzzle@,
                    0,
                    0,
                    Set::empty(),
                ),
                pattern_from(puzzle@, 0, 0, Set::empty()) is Some,
            decreases n - i,
        {
            let ch: char = puzzle.get_char(i);
            if ch == ' ' || ch == '\r' || ch == '\n' || ch == '|' || ch == '_' {
                i = i + 1;
                continue;
            }
            if '1' <= ch && ch <= '9' {
                proof {
                    lemma_set128_single(c as u128);
                    lemma_single_bound128(c as u128);
                    lemma_set128_union(bits, 1u128 << (c as u128));
                    lemma_bounds128(bits, 1u128 << (c as u128));
                    assert(set128(bits | (1u128 << (c as u128))) =~= set128(bits).insert(c as nat));
                }
                bits = bits | (1u128 << (c as u128));
            }
            c = c + 1;
            i = i + 1;
        }
        CellSet { bits }
    }

    /// The set of the given cells.
    pub fn of<const N: usize>(cells: &[Cell; N]) -> (r: Self)
        ensures
            r@ == Set::new(|i: nat| exists|j: int| 0 <= j < N && (#[trigger] cells@[j])@ == i),
    {
        let mut set = Self::empty();
        let mut i: usize = 0;
        while i < N
            invariant
                i <= N,
                set@ == Set::new(|x: nat| exists|j: int| 0 <= j < i && (#[trigger] cells@[j])@ == x),
            decreases N - i,
        {
            let c = cells[i];
            set = set.with(c);
            proof {
                assert(set@ =~= Set::new(
                    |x: nat| exists|j: int| 0 <= j < i + 1 && (#[trigger] cells@[j])@ == x,
                )) by {
                    assert forall|x: nat| set@.contains(x) implies exists|j: int|
                        0 <= j < i + 1 && (#[trigger] cells@[j])@ == x by {
                        if x == c@ {
                            assert(cells@[i as int] == c);
                        }
                    }
                }
            }
            i = i + 1;
        }
        set
    }

    /// Whether both sets have the same members.
    /// Whether the sets have the same members; sets with the same members
    /// are the same value.
    pub fn equals(&self, other: &CellSet) -> (r: bool)
        ensures
            r == (self@ == other@),
            r == (*self == *other),
    {
        let a: u128 = self.bits();
        let b: u128 = other.bits();
        proof {
            if self@ == other@ {
                lemma_ext128(a, b);
            }
        }
        a == b
    }

    pub fn is_empty(&self) -> (r: bool)
        ensures
            r == (self@ == Set::<nat>::empty()),
    {
        let b: u128 = self.bits();
        proof {
            lemma_set128_zero();
            if self@ == Set::<nat>::empty() {
                lemma_ext128(b, 0);
            }
        }
        b == 0
    }

    pub fn is_full(&self) -> (r: bool)
        ensures
            r == (self@ == all_cells()),
    {
        let b: u128 = self.bits();
        proof {
            lemma_set128_full();
            if self@ == all_cells() {
                lemma_ext128(b, FULL81);
            }
        }
        b == FULL81
    }

    /// The number of members.
    pub fn len(&self) -> (r: usize)
        ensures
            r == self@.len(),
            r <= 81,
    {
        let b: u128 = self.bits();
        let mut count: usize = 0;
        let mut i: u8 = 0;
        while i < 81
            invariant
                i <= 81,
                count == count_below(pred128(b), i as nat),
                count <= i,
            decreases 81 - i,
        {
            if (b >> (i as u128)) & 1u128 == 1u128 {
                count = count + 1;
            }
            i = i + 1;
        }
        proof {
            lemma_set128_finite(b);
        }
        count
    }

    pub fn has(&self, cell: Cell) -> (r: bool)
        ensures
            r == self@.contains(cell@),
    {
        let b: u128 = self.bits();
        let i: u8 = cell.index();
        (b >> (i as u128)) & 1u128 == 1u128
    }

    pub fn with(&self, cell: Cell) -> (r: Self)
        ensures
            r@ == self@.insert(cell@),
    {
        let b: u128 = self.bits();
        let i: u8 = cell.index();
        proof {
            lemma_set128_single(i as u128);
            lemma_single_bound128(i as u128);
            lemma_set128_union(b, 1u128 << (i as u128));
            lemma_bounds128(b, 1u128 << (i as u128));
            assert(set128(b | (1u128 << (i as u128))) =~= self@.insert(cell@));
        }
        CellSet { bits: b | (1u128 << (i as u128)) }
    }

    pub fn add(&mut self, cell: Cell)
        ensures
            final(self)@ == old(self)@.insert(cell@),
    {
        *self = self.with(cell);
    }

    pub fn without(&self, cell: Cell) -> (r: Self)
        ensures
            r@ == self@.remove(cell@),
    {
        let b: u128 = self.bits();
        let i: u8 = cell.index();
        proof {
            lemma_set128_single(i as u128);
            lemma_single_bound128(i as u128);
            lemma_set128_difference(b, 1u128 << (i as u128));
            lemma_bounds128(b, 1u128 << (i as u128));
            assert(set128(b & !(1u128 << (i as u128))) =~= self@.remove(cell@));
        }
        CellSet { bits: b & !(1u128 << (i as u128)) }
    }

    pub fn remove(&mut self, cell: Cell)
        ensures
            final(self)@ == old(self)@.remove(cell@),
    {
        *self = self.without(cell);
    }

    pub fn has_any(&self, set: CellSet) -> (r: bool)
        ensures
            r == !self@.disjoint(set@),
    {
        let i = self.intersect(set);
        let e = i.is_empty();
        proof {
            if e {
                assert forall|x: nat| self@.contains(x) implies !set@.contains(x) by {
                    assert(!i@.contains(x));
                }
            } else {
                assert(i@ !== Set::<nat>::empty());
                let x = choose|x: nat| i@.contains(x);
                assert(i@.contains(x)) by {
                    assert(!(i@ =~= Set::<nat>::empty()));
                }
            }
        }
        !e
    }

    pub fn has_all(&self, subset: CellSet) -> (r: bool)
        ensures
            r == subset@.subset_of(self@),
    {
        let i = self.intersect(subset);
        proof {
            if subset@.subset_of(self@) {
                assert(i@ =~= subset@);
            }
        }
        i.equals(&subset)
    }

    pub fn is_subset_of(&self, superset: CellSet) -> (r: bool)
        ensures
            r == self@.subset_of(superset@),
    {
        let i = self.intersect(superset);
        proof {
            if self@.subset_of(superset@) {
                assert(i@ =~= self@);
            }
        }
        i.equals(self)
    }

    /// The member with the lowest index, if any.
    pub fn first(&self) -> (r: Option<Cell>)
        ensures
            match r {
                Some(c) => is_least(self@, c@),
                None => self@ == Set::<nat>::empty(),
            },
    {
        let b: u128 = self.bits();
        let mut i: u8 = 0;
        while i < 81
            invariant
                i <= 81,
                set128(b) == self@,
                forall|j: nat| j < i ==> !#[trigger] self@.contains(j),
            decreases 81 - i,
        {
            if (b >> (i as u128)) & 1u128 == 1u128 {
                let c = Cell::new(i);
                return Some(c);
            }
            i = i + 1;
        }
        proof {
            lemma_cell_set_bounded(*self);
            assert(self@ =~= Set::<nat>::empty());
        }
        None
    }

    /// The only member, if there is exactly one.
    pub fn as_single(&self) -> (r: Option<Cell>)
        ensures
            r is Some <==> self@.len() == 1,
            r matches Some(c) ==> self@ == set![c@],
    {
        if self.len() != 1 {
            None
        } else {
            let c = self.first().unwrap();
            proof {
                lemma_cell_set_bounded(*self);
                lemma_len1(self@, c@);
            }
            Some(c)
        }
    }

    /// The two members in index order, if there are exactly two.
    pub fn as_pair(&self) -> (r: Option<(Cell, Cell)>)
        ensures
            r is Some <==> self@.len() == 2,
            r matches Some((a, b)) ==> a@ < b@ && self@ == set![a@, b@],
    {
        if self.len() != 2 {
            None
        } else {
            let first = self.first().unwrap();
            let rest = self.without(first);
            proof {
                lemma_cell_set_bounded(*self);
                lemma_cell_set_bounded(rest);
            }
            let second = rest.first().unwrap();
            proof {
                lemma_len1(rest@, second@);
                assert(self@ =~= set![first@, second@]);
            }
            Some((first, second))
        }
    }

    /// The three members in index order, if there are exactly three.
    pub fn as_triple(&self) -> (r: Option<(Cell, Cell, Cell)>)
        ensures
            r is Some <==> self@.len() == 3,
            r matches Some((a, b, c)) ==> a@ < b@ && b@ < c@ && self@ == set![a@, b@, c@],
    {
        if self.len() != 3 {
            None
        } else {
            let first = self.first().unwrap();
            let rest = self.without(first);
            proof {
                lemma_cell_set_bounded(*self);
                lemma_cell_set_bounded(rest);
            }
            let second = rest.first().unwrap();
            let rest2 = rest.without(second);
            proof {
                lemma_cell_set_bounded(rest2);
            }
            let third = rest2.first().unwrap();
            proof {
                lemma_len1(rest2@, third@);
                assert(self@ =~= set![first@, second@, third@]);
            }
            Some((first, second, third))
        }
    }

    /// Removes and returns the member with the lowest index.
    pub fn pop(&mut self) -> (r: Option<Cell>)
        ensures
            match r {
                Some(c) => is_least(old(self)@, c@) && final(self)@ == old(self)@.remove(c@),
                None => old(self)@ == Set::<nat>::empty() && final(self)@ == old(self)@,
            },
    {
        let cell = self.first();
        match cell {
            Some(c) => {
                self.remove(c);
                Some(c)
            },
            None => None,
        }
    }

    pub fn union(&self, set: Self) -> (r: Self)
        ensures
            r@ == self@.union(set@),
    {
        let a: u128 = self.bits();
        let b: u128 = set.bits();
        proof {
            lemma_set128_union(a, b);
            lemma_bounds128(a, b);
        }
        if a == b {
            assert(self@.union(set@) =~= self@);
            *self
        } else {
            Self::from_bits(a | b)
        }
    }

    pub fn union_with(&mut self, set: Self)
        ensures
            final(self)@ == old(self)@.union(set@),
    {
        *self = self.union(set);
    }

    pub fn intersect(&self, set: Self) -> (r: Self)
        ensures
            r@ == self@.intersect(set@),
    {
        let a: u128 = self.bits();
        let b: u128 = set.bits();
        proof {
            lemma_set128_intersect(a, b);
            lemma_bounds128(a, b);
        }
        if a == b {
            assert(self@.intersect(set@) =~= self@);
            *self
        } else {
            Self::from_bits(a & b)
        }
    }

    pub fn intersect_with(&mut self, set: Self)
        ensures
            final(self)@ == old(self)@.intersect(set@),
    {
        *self = self.intersect(set);
    }

    pub fn minus(&self, set: Self) -> (r: Self)
        ensures
            r@ == self@.difference(set@),
    {
        let a: u128 = self.bits();
        let b: u128 = set.bits();
        proof {
            lemma_set128_difference(a, b);
            lemma_bounds128(a, b);
        }
        if a == b {
            assert(self@.difference(set@) =~= Set::<nat>::empty());
            Self::empty()
        } else {
            Self::from_bits(a & !b)
        }
    }

    pub fn subtract(&mut self, set: Self)
        ensures
            final(self)@ == old(self)@.difference(set@),
    {
        *self = self.minus(set);
    }

    /// The cells that are not members.
    pub fn inverted(&self) -> (r: Self)
        ensures
            r@ == all_cells().difference(self@),
            r@.len() == 81 - self@.len(),
    {
        let a: u128 = self.bits();
        proof {
            lemma_set128_complement(a);
            lemma_set128_full();
            lemma_bounds128(a, a);
        }
        let r = Self::from_bits(!a & FULL81);
        proof {
            lemma_set128_finite(a);
            assert(self@.subset_of(all_cells()));
            lemma_all_cells_len();
            vstd::set_lib::lemma_set_difference_len(all_cells(), self@);
            assert(all_cells().intersect(self@) =~= self@);
        }
        r
    }

    pub fn invert(&mut self)
        ensures
            final(self)@ == all_cells().difference(old(self)@),
    {
        *self = self.inverted();
    }

    /// The houses of `shape` holding at least one member.
    pub fn houses(&self, shape: Shape) -> (r: HouseSet)
        ensures
            r@ == (shape, houses_of_cells(shape, self@)),
    {
        let mut set = HouseSet::empty(shape);
        let mut i: u8 = 0;
        while i < 81
            invariant
                i <= 81,
                set@ == (shape, houses_of_cells(shape, self@.filter(|x: nat| x < i))),
            decreases 81 - i,
        {
            let c = Cell::new(i);
            let ghost before = self@.filter(|x: nat| x < i);
            let ghost after = self@.filter(|x: nat| x < i + 1);
            if self.has(c) {
                let h = c.house(shape);
                proof {
                    assert(after =~= before.insert(i as nat));
                    let hi = house_of(shape, i as nat);
                    assert forall|k: nat| #[trigger] houses_of_cells(shape, after).contains(k)
                        == houses_of_cells(shape, before).insert(hi).contains(k) by {
                        if houses_of_cells(shape, after).contains(k) {
                            let x = choose|x: nat| #[trigger] after.contains(x) && house_of(shape, x) == k;
                            if x != i {
                                assert(before.contains(x));
                            }
                        }
                        if houses_of_cells(shape, before).contains(k) {
                            let x = choose|x: nat| #[trigger] before.contains(x) && house_of(shape, x) == k;
                            assert(after.contains(x));
                        }
                        if k == hi {
                            assert(after.contains(i as nat));
                        }
                    }
                    assert(houses_of_cells(shape, after) =~= houses_of_cells(shape, before).insert(hi));
                }
                set = set.with_coord(h.coord());
            } else {
                proof {
                    assert(after =~= before);
                }
            }
            i = i + 1;
        }
        proof {
            lemma_cell_set_bounded(*self);
            assert(self@.filter(|x: nat| x < 81) =~= self@);
        }
        set
    }

    pub fn rows(&self) -> (r: HouseSet)
        ensures
            r@ == (Shape::Row, houses_of_cells(Shape::Row, self@)),
    {
        self.houses(Shape::Row)
    }

    pub fn columns(&self) -> (r: HouseSet)
        ensures
            r@ == (Shape::Column, houses_of_cells(Shape::Column, self@)),
    {
        self.houses(Shape::Column)
    }

    pub fn blocks(&self) -> (r: HouseSet)
        ensures
            r@ == (Shape::Block, houses_of_cells(Shape::Block, self@)),
    {
        self.houses(Shape::Block)
    }

    /// Whether the set is not empty and all members lie in one house of
    /// the given shape.
    pub fn share_house(&self, shape: Shape) -> (r: bool)
        ensures
            r == (self@ != Set::<nat>::empty() && in_one_house(self@, shape)),
    {
        match self.first() {
            None => false,
            Some(first) => {
                let house = first.house(shape);
                let h: u8 = house.coord().index();
                let cells = self.to_vec();
                let mut k: usize = 0;
                while k < cells.len()
                    invariant
                        k <= cells.len(),
                        self@.contains(first@),
                        h == house_of(shape, first@),
                        forall|x: nat| self@.contains(x) ==> exists|i: int| 0 <= i < cells.len() && (#[trigger] cells[i])@ == x,
                        forall|i: int| 0 <= i < cells.len() ==> self@.contains(#[trigger] cells[i]@),
                        forall|i: int| 0 <= i < k ==> house_of(shape, (#[trigger] cells[i])@) == h,
                    decreases cells.len() - k,
                {
                    let ch = cells[k].house(shape).coord().index();
                    if ch != h {
                        proof {
                            assert(self@.contains(cells[k as int]@));
                        }
                        return false;
                    }
                    k = k + 1;
                }
                proof {
                    assert forall|i: nat, j: nat|
                        #![trigger self@.contains(i), self@.contains(j)]
                        self@.contains(i) && self@.contains(j) implies house_of(shape, i) == house_of(
                            shape,
                            j,
                        ) by {
                        let a = choose|a: int| 0 <= a < cells.len() && (#[trigger] cells[a])@ == i;
                        let b = choose|b: int| 0 <= b < cells.len() && (#[trigger] cells[b])@ == j;
                    }
                }
                true
            },
        }
    }

    pub fn share_row(&self) -> (r: bool)
        ensures
            r == (self@ != Set::<nat>::empty() && in_one_house(self@, Shape::Row)),
    {
        self.share_house(Shape::Row)
    }

    pub fn share_column(&self) -> (r: bool)
        ensures
            r == (self@ != Set::<nat>::empty() && in_one_house(self@, Shape::Column)),
    {
        self.share_house(Shape::Column)
    }

    pub fn share_block(&self) -> (r: bool)
        ensures
            r == (self@ != Set::<nat>::empty() && in_one_house(self@, Shape::Block)),
    {
        self.share_house(Shape::Block)
    }

    /// Whether the set is not empty and lies in one row, one column or
    /// one block.
    pub fn share_any_house(&self) -> (r: bool)
        ensures
            r == (self@ != Set::<nat>::empty() && exists|s: Shape| #[trigger] in_one_house(self@, s)),
    {
        let r = self.share_row() || self.share_column() || self.share_block();
        proof {
            if self@ != Set::<nat>::empty() && exists|s: Shape| #[trigger] in_one_house(self@, s) {
                let s = choose|s: Shape| #[trigger] in_one_house(self@, s);
                match s {
                    Shape::Row => {},
                    Shape::Column => {},
                    Shape::Block => {},
                }
            }
        }
        r
    }

    /// The cells that are peers of every member (all cells when empty).
    pub fn peers(&self) -> (r: CellSet)
        ensures
            r@ == Set::new(|j: nat| j < 81 && forall|i: nat| #[trigger] self@.contains(i) ==> peers_of(i).contains(j)),
    {
        let cells = self.to_vec();
        let mut acc = CellSet::full();
        let mut k: usize = 0;
        while k < cells.len()
            invariant
                k <= cells.len(),
                forall|x: nat| self@.contains(x) ==> exists|i: int| 0 <= i < cells.len() && (#[trigger] cells[i])@ == x,
                forall|i: int| 0 <= i < cells.len() ==> self@.contains(#[trigger] cells[i]@),
                acc@ == Set::new(|j: nat| j < 81 && forall|i: int| 0 <= i < k ==> peers_of((#[trigger] cells[i])@).contains(j)),
            decreases cells.len() - k,
        {
            let p = cells[k].peers();
            proof {
                assert(acc@.intersect(p@) =~= Set::new(|j: nat| j < 81 && forall|i: int| 0 <= i < k + 1 ==> peers_of((#[trigger] cells[i])@).contains(j)));
            }
            acc = acc.intersect(p);
            k = k + 1;
        }
        proof {
            assert(acc@ =~= Set::new(|j: nat| j < 81 && forall|i: nat| #[trigger] self@.contains(i) ==> peers_of(i).contains(j))) by {
                assert forall|j: nat| acc@.contains(j) implies (forall|i: nat| #[trigger] self@.contains(i) ==> peers_of(i).contains(j)) by {
                    assert forall|i: nat| #[trigger] self@.contains(i) implies peers_of(i).contains(j) by {
                        let a = choose|a: int| 0 <= a < cells.len() && (#[trigger] cells[a])@ == i;
                    }
                }
            }
        }
        acc
    }

    /// The members in index order.
    pub fn to_vec(&self) -> (r: Vec<Cell>)
        ensures
            forall|i: int, j: int| 0 <= i < j < r.len() ==> r[i]@ < r[j]@,
            forall|i: int| 0 <= i < r.len() ==> self@.contains(#[trigger] r[i]@),
            forall|x: nat| self@.contains(x) ==> exists|i: int| 0 <= i < r.len() && (#[trigger] r[i])@ == x,
            r.len() == self@.len(),
    {
        let b: u128 = self.bits();
        let mut v: Vec<Cell> = Vec::new();
        let mut i: u8 = 0;
        while i < 81
            invariant
                i <= 81,
                set128(b) == self@,
                forall|k: int, j: int| 0 <= k < j < v.len() ==> v[k]@ < v[j]@,
                forall|k: int| 0 <= k < v.len() ==> self@.contains(#[trigger] v[k]@) && v[k]@ < i,
                forall|x: nat| x < i && self@.contains(x) ==> exists|k: int| 0 <= k < v.len() && (#[trigger] v[k])@ == x,
                v.len() == count_below(pred128(b), i as nat),
            decreases 81 - i,
        {
            let ghost old_v = v@;
            if (b >> (i as u128)) & 1u128 == 1u128 {
                let c = Cell::new(i);
                v.push(c);
                proof {
                    assert(v[v.len() - 1]@ == i);
                }
            }
            proof {
                assert forall|x: nat| x < i + 1 && self@.contains(x) implies exists|k: int|
                    0 <= k < v.len() && (#[trigger] v[k])@ == x by {
                    if x == i {
                        assert(v[v.len() - 1]@ == x);
                    } else {
                        let k = choose|k: int| 0 <= k < old_v.len() && (#[trigger] old_v[k])@ == x;
                        assert(v[k] == old_v[k]);
                    }
                }
            }
            i = i + 1;
        }
        proof {
            lemma_set128_finite(b);
            lemma_cell_set_bounded(*self);
        }
        v
    }

    /// The pattern string: '1' for each member, '.' for each other cell.
    pub fn pattern_string(&self) -> (r: String)
        ensures
            r@ == pattern_of(self@),
    {
        let mut s = String::new();
        let mut i: u8 = 0;
        while i < 81
            invariant
                i <= 81,
                s@ =~= pattern_of(self@).subrange(0, i as int),
            decreases 81 - i,
        {
            let c = Cell::new(i);
            if self.has(c) {
                string_push(&mut s, '1');
            } else {
                string_push(&mut s, '.');
            }
            i = i + 1;
        }
        assert(s@ =~= pattern_of(self@));
        s
    }

    /// The member count in two places, a colon and one bit per cell.
    pub fn debug(&self) -> (r: String)
        ensures
            r@ == two_digits(self@.len()) + seq![':'] + bit_string_of(self@),
    {
        let n: usize = self.len();
        let mut s = String::new();
        push_two_digits(&mut s, n as u8);
        string_push(&mut s, ':');
        let ghost head = s@;
        let mut i: u8 = 0;
        while i < 81
            invariant
                i <= 81,
                head == two_digits(self@.len()) + seq![':'],
                s@ =~= head + bit_string_of(self@).subrange(0, i as int),
            decreases 81 - i,
        {
            let c = Cell::new(i);
            if self.has(c) {
                string_push(&mut s, '1');
            } else {
                string_push(&mut s, '0');
            }
            i = i + 1;
        }
        assert(bit_string_of(self@).subrange(0, 81) =~= bit_string_of(self@));
        s
    }

    /// The labels of the members in index order, separated by spaces,
    /// or "∅" for the empty set.
    pub fn label_string(&self) -> (r: String)
        ensures
            self@ == Set::<nat>::empty() ==> r@ == seq!['∅'],
            self@ != Set::<nat>::empty() ==> r@ == labels_of_below(self@, 81),
    {
        if self.is_empty() {
            let mut e = String::new();
            string_push(&mut e, '∅');
            assert(e@ =~= seq!['∅']);
            return e;
        }
        let mut s = String::new();
        let mut i: u8 = 0;
        while i < 81
            invariant
                i <= 81,
                s@ == labels_of_below(self@, i as nat),
            decreases 81 - i,
        {
            let c = Cell::new(i);
            if self.has(c) {
                if s.as_str().unicode_len() != 0 {
                    string_push(&mut s, ' ');
                }
                let label = c.label();
                s.append(label.as_str());
                assert(s@ =~= labels_of_below(self@, (i + 1) as nat));
            }
            i = i + 1;
        }
        s
    }

    /// The cells named by whitespace-separated labels such as "A1 J9".
    pub fn from_str(labels: &str) -> (r: Self)
        requires
            labels_from(labels@, 0) is Some,
        ensures
            labels_from(labels@, 0) == Some(r@),
    {
        let n: usize = labels.unicode_len();
        let mut set = Self::empty();
        let mut i: usize = 0;
        while i < n
            invariant
                n == labels@.len(),
                i <= n + 1,
                labels_from(labels@, i as int) matches Some(rest) && labels_from(labels@, 0)
                    == Some(set@.union(rest)),
            decreases n + 1 - i,
        {
            let ch: char = labels.get_char(i);
            if char_is_space(ch) {
                i = i + 1;
                continue;
            }
            let b: char = labels.get_char(i + 1);
            let cell = Cell::from_chars(ch, b).unwrap();
            proof {
                let rest = labels_from(labels@, i as int + 2)->0;
                assert(set@.union(rest.insert(cell@)) =~= set@.insert(cell@).union(rest));
            }
            set = set.with(cell);
            i = i + 2;
        }
        proof {
            assert(set@.union(Set::<nat>::empty()) =~= set@);
        }
        set
    }
}

} // verus!

verus! {

/// An iterator over the bits of a cell set, lowest first.
pub struct BitIter {
    bits: u128,
}

impl View for BitIter {
    type V = Set<nat>;

    closed spec fn view(&self) -> Set<nat> {
        set128(self.bits)
    }
}

impl BitIter {
    #[verifier::type_invariant]
    spec fn inv(self) -> bool {
        self.bits <= FULL81
    }

    /// The bit of the lowest remaining cell, which is removed.
    pub fn next(&mut self) -> (r: Option<Bit>)
        ensures
            match r {
                Some(b) => is_cell_bit(b.word()) && is_least(old(self)@, cell_bit_index(b.word()))
                    && final(self)@ == old(self)@.remove(cell_bit_index(b.word())),
                None => old(self)@ == Set::<nat>::empty() && final(self)@ == old(self)@,
            },
    {
        proof {
            use_type_invariant(&*self);
        }
        let mut set = CellSet { bits: self.bits };
        match set.pop() {
            Some(c) => {
                self.bits = set.bits();
                let b = Bit::from_cell(c);
                proof {
                    let k = cell_bit_index(b.word());
                    lemma_set128_single(k as u128);
                    lemma_set128_single(c@ as u128);
                    assert(set![k] =~= set128(b.word()));
                    assert(set![c@] =~= set128(b.word()));
                    assert(set![k].contains(c@));
                }
                Some(b)
            },
            None => None,
        }
    }
}

/// An iterator over the cells of a cell set in index order.
pub struct CellIter {
    iter: BitIter,
}

impl View for CellIter {
    type V = Set<nat>;

    closed spec fn view(&self) -> Set<nat> {
        self.iter@
    }
}

impl CellIter {
    /// The lowest remaining cell, which is removed.
    pub fn next(&mut self) -> (r: Option<Cell>)
        ensures
            match r {
                Some(c) => is_least(old(self)@, c@) && final(self)@ == old(self)@.remove(c@),
                None => old(self)@ == Set::<nat>::empty() && final(self)@ == old(self)@,
            },
    {
        match self.iter.next() {
            Some(b) => {
                let c = b.cell();
                proof {
                    let k = cell_bit_index(b.word());
                    lemma_set128_single(k as u128);
                    lemma_set128_single(c@ as u128);
                    assert(set![k] =~= set128(b.word()));
                    assert(set![c@] =~= set128(b.word()));
                    assert(set![k].contains(c@));
                }
                Some(c)
            },
            None => None,
        }
    }
}

impl CellSet {
    /// An iterator over the members in index order.
    pub fn iter(&self) -> (r: CellIter)
        ensures
            r@ == self@,
    {
        CellIter { iter: self.bit_iter() }
    }

    /// An iterator over the bits of the members, lowest first.
    pub fn bit_iter(&self) -> (r: BitIter)
        ensures
            r@ == self@,
    {
        BitIter { bits: self.bits() }
    }
}

/// Unions of collections of cells.
pub trait CellIteratorUnion {
    spec fn members(&self) -> Set<nat>;

    /// The set of all the cells.
    fn union(self) -> (r: CellSet)
        ensures
            r@ == self.members(),
    ;

    /// The set of all the cells.
    fn union_cells(self) -> (r: CellSet)
        ensures
            r@ == self.members(),
    ;
}

impl CellIteratorUnion for Vec<Cell> {
    open spec fn members(&self) -> Set<nat> {
        Set::new(|x: nat| exists|j: int| 0 <= j < self.len() && (#[trigger] self[j])@ == x)
    }

    fn union(self) -> (r: CellSet) {
        self.union_cells()
    }

    fn union_cells(self) -> (r: CellSet) {
        let mut acc = CellSet::empty();
        let mut i: usize = 0;
        while i < self.len()
            invariant
                i <= self.len(),
                acc@ == Set::new(|x: nat| exists|j: int| 0 <= j < i && (#[trigger] self[j])@ == x),
            decreases self.len() - i,
        {
            let c = self[i];
            acc = acc.with(c);
            proof {
                assert(acc@ =~= Set::new(|x: nat| exists|j: int| 0 <= j < i + 1 && (#[trigger] self[j])@ == x)) by {
                    assert forall|x: nat| acc@.contains(x) implies exists|j: int| 0 <= j < i + 1 && (#[trigger] self[j])@ == x by {
                        if x == c@ {
                            assert(self[i as int] == c);
                        }
                    }
                }
            }
            i = i + 1;
        }
        acc
    }
}

/// Unions of collections of cell sets.
pub trait CellSetIteratorUnion {
    spec fn member_union(&self) -> Set<nat>;

    fn union(self) -> (r: CellSet)
        ensures
            r@ == self.member_union(),
    ;

    fn union_cells(self) -> (r: CellSet)
        ensures
            r@ == self.member_union(),
    ;
}

impl CellSetIteratorUnion for Vec<CellSet> {
    open spec fn member_union(&self) -> Set<nat> {
        Set::new(|x: nat| exists|j: int| 0 <= j < self.len() && (#[trigger] self[j])@.contains(x))
    }

    fn union(self) -> (r: CellSet) {
        self.union_cells()
    }

    fn union_cells(self) -> (r: CellSet) {
        let mut acc = CellSet::empty();
        let mut i: usize = 0;
        while i < self.len()
            invariant
                i <= self.len(),
                acc@ == Set::new(|x: nat| exists|j: int| 0 <= j < i && (#[trigger] self[j])@.contains(x)),
            decreases self.len() - i,
        {
            let s = self[i];
            acc = acc.union(s);
            proof {
                assert(acc@ =~= Set::new(|x: nat| exists|j: int| 0 <= j < i + 1 && (#[trigger] self[j])@.contains(x))) by {
                    assert forall|x: nat| acc@.contains(x) implies exists|j: int| 0 <= j < i + 1 && (#[trigger] self[j])@.contains(x) by {
                        if s@.contains(x) {
                            assert(self[i as int] == s);
                        }
                    }
                }
            }
            i = i + 1;
        }
        acc
    }
}

/// Intersections of collections of cell sets.
pub trait CellSetIteratorIntersection {
    spec fn member_intersection(&self) -> Set<nat>;

    /// The cells in every set (all cells when there is none).
    fn intersection(self) -> (r: CellSet)
        ensures
            r@ == self.member_intersection(),
    ;
}

impl CellSetIteratorIntersection for Vec<CellSet> {
    open spec fn member_intersection(&self) -> Set<nat> {
        Set::new(|x: nat| x < 81 && forall|j: int| 0 <= j < self.len() ==> (#[trigger] self[j])@.contains(x))
    }

    fn intersection(self) -> (r: CellSet) {
        let mut acc = CellSet::full();
        let mut i: usize = 0;
        while i < self.len()
            invariant
                i <= self.len(),
                acc@ == Set::new(|x: nat| x < 81 && forall|j: int| 0 <= j < i ==> (#[trigger] self[j])@.contains(x)),
            decreases self.len() - i,
        {
            let s = self[i];
            acc = acc.intersect(s);
            proof {
                assert(acc@ =~= Set::new(|x: nat| x < 81 && forall|j: int| 0 <= j < i + 1 ==> (#[trigger] self[j])@.contains(x)));
            }
            i = i + 1;
        }
        acc
    }
}

} // verus!
