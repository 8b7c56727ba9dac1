use core::hash::Hasher;
use vstd::multiset::Multiset;
use vstd::pervasive::cloned;
use vstd::prelude::*;

use crate::element::plain_value;

verus! {

broadcast use {
    vstd::seq_lib::group_to_multiset_ensures,
    vstd::multiset::lemma_update_same,
    vstd::multiset::lemma_update_different,
};

/// Removing the entry at `i` by moving the last entry into its place takes
/// one copy of `s[i]` out of the multiset.
proof fn lemma_swap_remove<T>(s: Seq<T>, i: int)
    requires
        0 <= i < s.len(),
    ensures
        s.update(i, s.last()).drop_last().to_multiset() == s.to_multiset().remove(s[i]),
{
    let t = s.update(i, s.last());
    assert(t.drop_last().push(s.last()) =~= t);
    assert(s.contains(s[i]));
    assert(t.to_multiset() == s.to_multiset().insert(s.last()).remove(s[i]));
    assert(t.to_multiset() == t.drop_last().to_multiset().insert(s.last()));
    assert forall|x: T| #[trigger]
        t.drop_last().to_multiset().count(x) == s.to_multiset().remove(s[i]).count(x) by {
        assert(t.to_multiset().count(x) == t.drop_last().to_multiset().insert(s.last()).count(x));
    }
    assert(t.drop_last().to_multiset() =~= s.to_multiset().remove(s[i]));
}

/// Why a request on a bag was refused.
#[derive(Debug, Clone, Copy, PartialEq, Eq, Structural)]
pub enum BagError {
    /// A capacity of zero was asked for; every bag has at least one slot.
    InvalidArgument,
}

/// An unordered collection of values in which a value may occur many times.
///
/// The live entries are `data[0..used]`; the slots after them are spare
/// capacity whose contents carry no meaning. The capacity is `data.len()`,
/// and it is never below one.
#[derive(Debug)]
pub struct Bag<T> {
    data: Vec<T>,
    used: usize,
}

impl<T> View for Bag<T> {
    type V = Seq<T>;

    /// The live entries, in storage order. Only their multiset matters.
    closed spec fn view(&self) -> Seq<T> {
        self.data@.subrange(0, self.used as int)
    }
}

impl<T> Bag<T> {
    #[verifier::type_invariant]
    closed spec fn inv(self) -> bool {
        &&& self.used <= self.data@.len()
        &&& self.data@.len() >= 1
    }

    /// The number of slots of the backing array.
    pub closed spec fn spec_capacity(&self) -> nat {
        self.data@.len()
    }

    /// The bag's contents, each value with its multiplicity.
    pub open spec fn contents(&self) -> Multiset<T> {
        self@.to_multiset()
    }

    /// The number of values in the bag.
    pub fn len(&self) -> (n: usize)
        ensures
            n == self@.len(),
    {
        proof {
            use_type_invariant(self);
        }
        self.used
    }

    /// The number of slots of the backing array.
    pub fn capacity(&self) -> (n: usize)
        ensures
            n == self.spec_capacity(),
    {
        self.data.len()
    }

    /// The number of slots of the backing array; the same as `capacity`.
    pub fn get_capacity(&self) -> (n: usize)
        ensures
            n == self.spec_capacity(),
    {
        self.data.len()
    }

    /// The number of values in the bag; the same as `len`.
    pub fn size(&self) -> (n: usize)
        ensures
            n == self@.len(),
    {
        self.len()
    }

    /// Whether the bag holds no value.
    pub fn is_empty(&self) -> (e: bool)
        ensures
            e == (self@.len() == 0),
    {
        self.len() == 0
    }
}

impl<T: PartialEq + Clone + Default> Bag<T> {
    /// An empty bag with a capacity of one.
    pub fn new() -> (b: Self)
        ensures
            b@ == Seq::<T>::empty(),
            b.spec_capacity() == 1,
    {
        let mut data: Vec<T> = Vec::new();
        data.push(T::default());
        let b = Bag { data, used: 0 };
        assert(b@ =~= Seq::<T>::empty());
        b
    }

    /// Moves the backing array out, leaving an empty bag with one slot.
    fn take_data(&mut self) -> (data: Vec<T>)
        ensures
            data@ == old(self).data@,
            final(self).used == 0,
            final(self).spec_capacity() == 1,
    {
        proof {
            use_type_invariant(&*self);
        }
        let mut data: Vec<T> = Vec::new();
        data.push(T::default());
        self.used = 0;
        std::mem::swap(&mut self.data, &mut data);
        data
    }

    /// Adds one copy of `new_item`, doubling the capacity first when every
    /// slot is in use.
    pub fn insert(&mut self, new_item: T)
        requires
            old(self)@.len() == old(self).spec_capacity() ==> old(self).spec_capacity() * 2
                <= usize::MAX,
        ensures
            final(self)@ == old(self)@.push(new_item),
            final(self).spec_capacity() == if old(self)@.len() == old(self).spec_capacity() {
                2 * old(self).spec_capacity()
            } else {
                old(self).spec_capacity()
            },
    {
        proof {
            use_type_invariant(&*self);
        }
        if self.used == self.data.len() {
            let n = self.used;
            let mut data = self.take_data();
            data.resize(n * 2, T::default());
            self.data = data;
            self.used = n;
        }
        let n = self.used;
        self.data[n] = new_item;
        self.used = n + 1;
        assert(self@ =~= old(self)@.push(new_item));
    }

    /// Removes every copy of `target` and returns how many there were. Each
    /// copy found is overwritten with the last live entry, so the order of
    /// the others may change; the capacity stays as it was.
    pub fn erase(&mut self, target: T) -> (removed: usize)
        requires
            plain_value::<T>(),
        ensures
            removed == old(self).contents().count(target),
            final(self).contents() == old(self).contents().update(target, 0),
            final(self).contents().count(target) == 0,
            final(self)@.len() == old(self)@.len() - removed,
            removed == 0 ==> final(self)@ == old(self)@,
            final(self).spec_capacity() == old(self).spec_capacity(),
    {
        proof {
            use_type_invariant(&*self);
        }
        let ghost m = self@.to_multiset();
        let old_used = self.used;
        let mut index: usize = 0;
        while index < self.used
            invariant
                plain_value::<T>(),
                index <= self.used <= old_used,
                self.used <= self.data@.len(),
                self.data@.len() == old(self).spec_capacity(),
                forall|j: int| 0 <= j < index ==> self@[j] != target,
                forall|x: T| x != target ==> self@.to_multiset().count(x) == m.count(x),
                self@.to_multiset().count(target) + (old_used - self.used) == m.count(target),
                self.used == old_used ==> self@ == old(self)@,
            decreases self.used - index,
        {
            proof {
                use_type_invariant(&*self);
            }
            if self.data[index] == target {
                let ghost live = self@;
                self.used = self.used - 1;
                let last = self.data[self.used].clone();
                assert(cloned(live.last(), last));
                assert(last == live.last());
                self.data[index] = last;
                proof {
                    assert(self@ =~= live.update(index as int, live.last()).drop_last());
                    lemma_swap_remove(live, index as int);
                }
            } else {
                index = index + 1;
            }
        }
        proof {
            assert(!self@.contains(target));
            assert forall|x: T| #[trigger]
                self@.to_multiset().count(x) == m.update(target, 0).count(x) by {
                if x == target {
                    assert(self@.to_multiset().count(x) == 0);
                }
            }
            assert(self@.to_multiset() =~= m.update(target, 0));
        }
        old_used - self.used
    }

    /// Removes one copy of `target`, if there is one, by moving the last live
    /// entry into its slot. Returns whether a copy was found; the capacity
    /// stays as it was.
    pub fn erase_one(&mut self, target: T) -> (found: bool)
        requires
            plain_value::<T>(),
        ensures
            found == old(self).contents().contains(target),
            found ==> final(self).contents() == old(self).contents().remove(target),
            found ==> final(self).contents().count(target) == old(self).contents().count(target)
                - 1,
            found ==> final(self)@.len() == old(self)@.len() - 1,
            !found ==> final(self)@ == old(self)@,
            final(self).spec_capacity() == old(self).spec_capacity(),
    {
        proof {
            use_type_invariant(&*self);
        }
        let mut index: usize = 0;
        while index < self.used && !(self.data[index] == target)
            invariant
                plain_value::<T>(),
                index <= self.used <= self.data@.len(),
                self@ == old(self)@,
                self.data@.len() == old(self).spec_capacity(),
                forall|j: int| 0 <= j < index ==> self@[j] != target,
            decreases self.used - index,
        {
            index = index + 1;
        }
        if index == self.used {
            assert(!self@.contains(target));
            return false;
        }
        let ghost live = self@;
        self.used = self.used - 1;
        let last = self.data[self.used].clone();
        assert(cloned(live.last(), last));
        self.data[index] = last;
        proof {
            assert(self@ =~= live.update(index as int, live.last()).drop_last());
            lemma_swap_remove(live, index as int);
        }
        true
    }

    /// The number of copies of `target` in the bag.
    pub fn occurrences(&self, target: T) -> (n: usize)
        requires
            plain_value::<T>(),
        ensures
            n == self.contents().count(target),
    {
        proof {
            use_type_invariant(self);
        }
        let mut n: usize = 0;
        let mut index: usize = 0;
        while index < self.used
            invariant
                plain_value::<T>(),
                index <= self.used <= self.data@.len(),
                n <= index,
                n == self@.subrange(0, index as int).to_multiset().count(target),
            decreases self.used - index,
        {
            proof {
                assert(self@.subrange(0, index + 1) =~= self@.subrange(0, index as int).push(
                    self@[index as int],
                ));
            }
            if self.data[index] == target {
                n = n + 1;
            }
            index = index + 1;
        }
        assert(self@.subrange(0, index as int) =~= self@);
        n
    }

    /// An empty bag with `initial_capacity` slots. A capacity of zero is
    /// refused.
    pub fn with_capacity(initial_capacity: usize) -> (r: Result<Self, BagError>)
        ensures
            initial_capacity == 0 <==> r == Err::<Self, BagError>(BagError::InvalidArgument),
            r matches Ok(b) ==> b@ == Seq::<T>::empty() && b.spec_capacity() == initial_capacity,
    {
        if initial_capacity == 0 {
            return Err(BagError::InvalidArgument);
        }
        let mut data: Vec<T> = Vec::new();
        data.resize(initial_capacity, T::default());
        let b = Bag { data, used: 0 };
        assert(b@ =~= Seq::<T>::empty());
        Ok(b)
    }

    /// Makes sure the bag has at least `new_capacity` slots, growing it to
    /// exactly that many when it has fewer. A capacity of zero is refused
    /// and leaves the bag as it was.
    pub fn ensure_capacity(&mut self, new_capacity: usize) -> (r: Result<(), BagError>)
        ensures
            new_capacity == 0 <==> r == Err::<(), BagError>(BagError::InvalidArgument),
            final(self)@ == old(self)@,
            r is Err ==> final(self).spec_capacity() == old(self).spec_capacity(),
            r is Ok ==> final(self).spec_capacity() == if old(self).spec_capacity()
                < new_capacity {
                new_capacity as nat
            } else {
                old(self).spec_capacity()
            },
    {
        proof {
            use_type_invariant(&*self);
        }
        if new_capacity == 0 {
            return Err(BagError::InvalidArgument);
        }
        if self.data.len() < new_capacity {
            let n = self.used;
            let mut data = self.take_data();
            data.resize(new_capacity, T::default());
            self.data = data;
            self.used = n;
            assert(self@ =~= old(self)@);
        }
        Ok(())
    }

    /// The same as `ensure_capacity`: `new_capacity` is the total number of
    /// slots wanted, not a number of slots to add.
    pub fn reserve(&mut self, new_capacity: usize) -> (r: Result<(), BagError>)
        ensures
            new_capacity == 0 <==> r == Err::<(), BagError>(BagError::InvalidArgument),
            final(self)@ == old(self)@,
            r is Err ==> final(self).spec_capacity() == old(self).spec_capacity(),
            r is Ok ==> final(self).spec_capacity() == if old(self).spec_capacity()
                < new_capacity {
                new_capacity as nat
            } else {
                old(self).spec_capacity()
            },
    {
        self.ensure_capacity(new_capacity)
    }

    /// Drops the spare slots: the capacity becomes the number of values, or
    /// one for an empty bag.
    pub fn trim_to_size(&mut self)
        ensures
            final(self)@ == old(self)@,
            final(self).spec_capacity() == if old(self)@.len() <= 1 {
                1
            } else {
                old(self)@.len()
            },
    {
        proof {
            use_type_invariant(&*self);
        }
        let n = self.used;
        let keep = if n <= 1 {
            1
        } else {
            n
        };
        let mut data = self.take_data();
        data.truncate(keep);
        self.data = data;
        self.used = n;
        assert(self@ =~= old(self)@);
    }

    /// The same as `trim_to_size`.
    pub fn shrink_to_fit(&mut self)
        ensures
            final(self)@ == old(self)@,
            final(self).spec_capacity() == if old(self)@.len() <= 1 {
                1
            } else {
                old(self)@.len()
            },
    {
        self.trim_to_size();
    }

    /// Removes every value; the capacity stays as it was.
    pub fn clear(&mut self)
        ensures
            final(self)@ == Seq::<T>::empty(),
            final(self).spec_capacity() == old(self).spec_capacity(),
    {
        proof {
            use_type_invariant(&*self);
        }
        self.used = 0;
        assert(self@ =~= Seq::<T>::empty());
    }

    /// A copy of `source`, independent of it, with as many slots as
    /// `source` has values (one for an empty bag).
    pub fn from_bag(source: &Bag<T>) -> (b: Self)
        ensures
            b@.len() == source@.len(),
            forall|i: int| 0 <= i < b@.len() ==> cloned(source@[i], #[trigger] b@[i]),
            plain_value::<T>() ==> b@ == source@,
            b.spec_capacity() == if source@.len() == 0 {
                1
            } else {
                source@.len()
            },
    {
        source.clone()
    }

    /// Appends a copy of each value of `other`, growing the capacity to
    /// exactly the new count when the slots do not suffice.
    fn append_copies(&mut self, other: &Bag<T>)
        ensures
            final(self)@.len() == old(self)@.len() + other@.len(),
            final(self)@.subrange(0, old(self)@.len() as int) == old(self)@,
            forall|i: int|
                0 <= i < other@.len() ==> cloned(
                    other@[i],
                    #[trigger] final(self)@[old(self)@.len() + i],
                ),
            plain_value::<T>() ==> final(self)@ == old(self)@ + other@,
            final(self).spec_capacity() == if old(self).spec_capacity() < final(self)@.len() {
                final(self)@.len()
            } else {
                old(self).spec_capacity()
            },
    {
        proof {
            use_type_invariant(&*self);
            use_type_invariant(other);
        }
        let n = self.used;
        let mut data = self.take_data();
        let old_capacity = data.len();
        data.truncate(n);
        let mut i: usize = 0;
        while i < other.used
            invariant
                i <= other.used <= other.data@.len(),
                data@.len() == n + i,
                data@.subrange(0, n as int) == old(self)@,
                forall|k: int| 0 <= k < i ==> cloned(other@[k], #[trigger] data@[n + k]),
            decreases other.used - i,
        {
            let item = other.data[i].clone();
            data.push(item);
            proof {
                assert(data@.subrange(0, n as int) =~= old(self)@);
            }
            i = i + 1;
        }
        let total = data.len();
        if total < old_capacity {
            data.resize(old_capacity, T::default());
        }
        self.data = data;
        self.used = total;
        proof {
            assert(self@.subrange(0, n as int) =~= old(self)@);
            if plain_value::<T>() {
                assert forall|k: int| 0 <= k < other@.len() implies self@[n + k] == other@[k] by {
                    assert(cloned(other@[k], self@[n + k]));
                }
                assert(self@ =~= old(self)@ + other@);
            }
        }
    }
}

impl<T: PartialEq + Clone + Default> Clone for Bag<T> {
    /// A copy independent of `self`, with as many slots as `self` has
    /// values (one for an empty bag).
    fn clone(&self) -> (b: Self)
        ensures
            b@.len() == self@.len(),
            forall|i: int| 0 <= i < b@.len() ==> cloned(self@[i], #[trigger] b@[i]),
            plain_value::<T>() ==> b@ == self@,
            b.spec_capacity() == if self@.len() == 0 {
                1
            } else {
                self@.len()
            },
    {
        proof {
            use_type_invariant(self);
        }
        let mut data: Vec<T> = Vec::new();
        let mut i: usize = 0;
        while i < self.used
            invariant
                i <= self.used <= self.data@.len(),
                data@.len() == i,
                forall|k: int| 0 <= k < i ==> cloned(self@[k], #[trigger] data@[k]),
            decreases self.used - i,
        {
            data.push(self.data[i].clone());
            i = i + 1;
        }
        if data.len() == 0 {
            data.push(T::default());
        }
        Bag { data, used: self.used }
    }
}

impl<T: PartialEq + Clone + Default> Default for Bag<T> {
    /// An empty bag with a capacity of one.
    fn default() -> (b: Self)
        ensures
            b@ == Seq::<T>::empty(),
            b.spec_capacity() == 1,
    {
        Self::new()
    }
}

impl<T: PartialEq + Clone + Default> core::ops::AddAssign for Bag<T> {
    /// Adds a copy of each value of `other` to `self`.
    fn add_assign(&mut self, other: Bag<T>)
        ensures
            final(self)@.len() == old(self)@.len() + other@.len(),
            plain_value::<T>() ==> final(self)@ == old(self)@ + other@,
            plain_value::<T>() ==> forall|v: T|
                #[trigger] final(self).contents().count(v) == old(self).contents().count(v)
                    + other.contents().count(v),
            final(self).spec_capacity() == if old(self).spec_capacity() < final(self)@.len() {
                final(self)@.len()
            } else {
                old(self).spec_capacity()
            },
    {
        self.append_copies(&other);
        proof {
            if plain_value::<T>() {
                vstd::seq_lib::lemma_multiset_commutative(old(self)@, other@);
            }
        }
    }
}

impl<T: PartialEq + Clone + Default> core::ops::Add for Bag<T> {
    type Output = Bag<T>;

    /// A bag holding the values of both operands, with their multiplicities
    /// added.
    fn add(self, other: Bag<T>) -> (sum: Bag<T>)
        ensures
            sum@.len() == self@.len() + other@.len(),
            plain_value::<T>() ==> sum@ == self@ + other@,
            plain_value::<T>() ==> forall|v: T|
                #[trigger] sum.contents().count(v) == self.contents().count(v)
                    + other.contents().count(v),
    {
        let mut sum = self;
        sum.append_copies(&other);
        proof {
            if plain_value::<T>() {
                vstd::seq_lib::lemma_multiset_commutative(self@, other@);
            }
        }
        sum
    }
}

impl<T: PartialEq + Clone + Default> vstd::std_specs::ops::AddSpecImpl for Bag<T> {
    /// What `+` returns is stated by the `ensures` of `add`, not by `add_spec`.
    open spec fn obeys_add_spec() -> bool {
        false
    }

    /// `+` accepts any two bags.
    open spec fn add_req(self, rhs: Bag<T>) -> bool {
        true
    }

    open spec fn add_spec(self, rhs: Bag<T>) -> Bag<T> {
        self
    }
}

impl<T: PartialEq + Clone> PartialEq for Bag<T> {
    /// Whether the two bags hold the same values with the same
    /// multiplicities, in whatever order they are stored.
    fn eq(&self, other: &Bag<T>) -> (r: bool) {
        proof {
            use_type_invariant(self);
            use_type_invariant(other);
        }
        if self.used != other.used {
            proof {
                assert(self@.to_multiset().len() != other@.to_multiset().len());
            }
            return false;
        }
        let mut rest: Vec<T> = Vec::new();
        let mut k: usize = 0;
        while k < other.used
            invariant
                k <= other.used <= other.data@.len(),
                rest@.len() == k,
                forall|q: int| 0 <= q < k ==> cloned(other@[q], #[trigger] rest@[q]),
            decreases other.used - k,
        {
            rest.push(other.data[k].clone());
            k = k + 1;
        }
        proof {
            if plain_value::<T>() {
                assert forall|q: int| 0 <= q < other@.len() implies rest@[q] == other@[q] by {
                    assert(cloned(other@[q], rest@[q]));
                }
                assert(rest@ =~= other@);
                assert(self@.subrange(0, 0) =~= Seq::<T>::empty());
                assert(rest@.to_multiset().add(self@.subrange(0, 0).to_multiset())
                    =~= other@.to_multiset());
            }
        }
        let mut i: usize = 0;
        while i < self.used
            invariant
                i <= self.used <= self.data@.len(),
                self.used == other.used,
                other.used <= other.data@.len(),
                rest@.len() + i == other@.len(),
                plain_value::<T>() ==> rest@.to_multiset().add(
                    self@.subrange(0, i as int).to_multiset(),
                ) == other@.to_multiset(),
            decreases self.used - i,
        {
            let mut j: usize = 0;
            while j < rest.len() && !(rest[j] == self.data[i])
                invariant
                    i < self.used <= self.data@.len(),
                    j <= rest@.len(),
                    plain_value::<T>() ==> forall|q: int| 0 <= q < j ==> rest@[q] != self@[i as int],
                decreases rest@.len() - j,
            {
                j = j + 1;
            }
            let ghost x = self@[i as int];
            let ghost prefix = self@.subrange(0, i as int);
            let ghost next = self@.subrange(0, i + 1);
            proof {
                assert(next =~= prefix.push(x));
            }
            if j == rest.len() {
                proof {
                    if plain_value::<T>() {
                        assert(!rest@.contains(x));
                        let suffix = self@.subrange(i as int, self@.len() as int);
                        assert(self@ =~= prefix + suffix);
                        assert(suffix[0] == x);
                        assert(suffix.contains(x));
                        vstd::seq_lib::lemma_multiset_commutative(prefix, suffix);
                        assert(self@.to_multiset().count(x) > other@.to_multiset().count(x));
                    }
                }
                return false;
            }
            let ghost before = rest@;
            rest.swap_remove(j);
            proof {
                if plain_value::<T>() {
                    lemma_swap_remove(before, j as int);
                    assert(before.contains(x));
                    assert forall|y: T| #[trigger]
                        rest@.to_multiset().add(next.to_multiset()).count(y)
                            == before.to_multiset().add(prefix.to_multiset()).count(y) by {}
                    assert(rest@.to_multiset().add(next.to_multiset()) =~= before.to_multiset().add(
                        prefix.to_multiset(),
                    ));
                }
            }
            i = i + 1;
        }
        proof {
            assert(self@.subrange(0, i as int) =~= self@);
            assert(rest@.to_multiset().len() == 0);
            if plain_value::<T>() {
                assert(rest@.to_multiset() =~= Multiset::<T>::empty());
                assert(self@.to_multiset() =~= other@.to_multiset());
            }
        }
        true
    }
}

impl<T: PartialEq + Clone> vstd::std_specs::cmp::PartialEqSpecImpl for Bag<T> {
    /// `==` on bags is multiset equality wherever `==` on the values is
    /// equality of values.
    open spec fn obeys_eq_spec() -> bool {
        plain_value::<T>()
    }

    open spec fn eq_spec(&self, other: &Bag<T>) -> bool {
        self@.to_multiset() == other@.to_multiset()
    }
}

/// A forward walk over the values of a bag, in storage order, by reference.
/// The bag cannot change while the walk borrows it.
pub struct BagIterator<'a, T> {
    bag: &'a Bag<T>,
    next_index: usize,
}

impl<'a, T> BagIterator<'a, T> {
    #[verifier::type_invariant]
    closed spec fn inv(self) -> bool {
        self.next_index <= self.bag.used
    }

    /// The values that the walk has yet to yield, in order.
    pub closed spec fn remaining(&self) -> Seq<T> {
        self.bag@.subrange(self.next_index as int, self.bag@.len() as int)
    }

    /// A walk over all the values of `source`.
    pub fn new(source: &'a Bag<T>) -> (it: Self)
        ensures
            it.remaining() == source@,
    {
        proof {
            use_type_invariant(source);
        }
        let it = BagIterator { bag: source, next_index: 0 };
        assert(it.remaining() =~= source@);
        it
    }

    /// Yields the next value, or `None` once every value has been yielded.
    pub fn next(&mut self) -> (r: Option<&'a T>)
        ensures
            old(self).remaining().len() == 0 ==> r is None && final(self).remaining() == old(
                self,
            ).remaining(),
            old(self).remaining().len() > 0 ==> r == Some(&old(self).remaining()[0])
                && final(self).remaining() == old(self).remaining().drop_first(),
    {
        proof {
            use_type_invariant(&*self);
            use_type_invariant(self.bag);
        }
        let bag: &'a Bag<T> = self.bag;
        if self.next_index < bag.used {
            let i = self.next_index;
            self.next_index = i + 1;
            assert(self.remaining() =~= old(self).remaining().drop_first());
            Some(&bag.data[i])
        } else {
            None
        }
    }

    /// The number of values that the walk has yet to yield.
    pub fn count(self) -> (n: usize)
        ensures
            n == self.remaining().len(),
    {
        proof {
            use_type_invariant(&self);
            use_type_invariant(self.bag);
        }
        self.bag.used - self.next_index
    }

    /// The last value that the walk has yet to yield, if any.
    pub fn last(self) -> (r: Option<&'a T>)
        ensures
            self.remaining().len() == 0 ==> r is None,
            self.remaining().len() > 0 ==> r == Some(&self.remaining().last()),
    {
        proof {
            use_type_invariant(&self);
            use_type_invariant(self.bag);
        }
        let bag: &'a Bag<T> = self.bag;
        if self.next_index < bag.used {
            Some(&bag.data[bag.used - 1])
        } else {
            None
        }
    }

    /// Skips `n` values and yields the one after them; once the walk runs
    /// out, yields `None` and leaves nothing to yield.
    pub fn nth(&mut self, n: usize) -> (r: Option<&'a T>)
        ensures
            n < old(self).remaining().len() ==> r == Some(&old(self).remaining()[n as int])
                && final(self).remaining() == old(self).remaining().subrange(
                n + 1,
                old(self).remaining().len() as int,
            ),
            n >= old(self).remaining().len() ==> r is None && final(self).remaining()
                == Seq::<T>::empty(),
    {
        proof {
            use_type_invariant(&*self);
            use_type_invariant(self.bag);
        }
        let bag: &'a Bag<T> = self.bag;
        if n < bag.used - self.next_index {
            let i = self.next_index + n;
            self.next_index = i + 1;
            assert(self.remaining() =~= old(self).remaining().subrange(
                n + 1,
                old(self).remaining().len() as int,
            ));
            Some(&bag.data[i])
        } else {
            self.next_index = bag.used;
            assert(self.remaining() =~= Seq::<T>::empty());
            None
        }
    }
}

impl<T> Bag<T> {
    /// A walk over the values of the bag, in storage order.
    pub fn iter(&self) -> (it: BagIterator<'_, T>)
        ensures
            it.remaining() == self@,
    {
        BagIterator::new(self)
    }
}

/// Relies on `Hash::hash` of the element type: feeds `item` into `state`.
#[verifier::external_body]
fn feed_item<T: core::hash::Hash>(item: &T, state: &mut std::collections::hash_map::DefaultHasher) {
    item.hash(state)
}

/// Relies on `Hasher::write_u64`: feeds `value` into `state`.
#[verifier::external_body]
fn feed_u64<H: core::hash::Hasher>(state: &mut H, value: u64) {
    state.write_u64(value)
}

impl<T: core::hash::Hash> Bag<T> {
    /// A digest of the values that does not depend on the order in which
    /// they are stored: the wrapping sum of a digest of each value.
    fn unordered_digest(&self) -> u64 {
        proof {
            use_type_invariant(self);
        }
        let mut sum: u64 = 0;
        let mut i: usize = 0;
        while i < self.used
            invariant
                i <= self.used <= self.data@.len(),
            decreases self.used - i,
        {
            let mut item_state = std::collections::hash_map::DefaultHasher::new();
            feed_item(&self.data[i], &mut item_state);
            sum = sum.wrapping_add(item_state.finish());
            i = i + 1;
        }
        sum
    }
}

impl<T: core::hash::Hash> core::hash::Hash for Bag<T> {
    /// Hashes the number of values and a digest of them that ignores their
    /// order, so that bags equal as multisets hash alike.
    fn hash<H: core::hash::Hasher>(&self, state: &mut H) {
        feed_u64(state, self.len() as u64);
        feed_u64(state, self.unordered_digest());
    }
}

} // verus!
