use vstd::prelude::*;
use crate::model::{CheckboxState, StoreError};
use crate::utils::{bit_of_byte, board, indices_below, indices_of, lemma_indices_below, partition_board};

verus! {

/// `byte` with bit `offset`, counted from the most significant bit, set to
/// `value`.
pub open spec fn byte_with_bit(byte: u8, offset: int, value: bool) -> u8 {
    if value {
        byte | (1u8 << ((7 - offset) as u8))
    } else {
        byte & !(1u8 << ((7 - offset) as u8))
    }
}

/// `bytes`, lengthened with zero bytes where it is shorter than `length`.
pub open spec fn padded(bytes: Seq<u8>, length: int) -> Seq<u8> {
    if bytes.len() >= length {
        bytes
    } else {
        bytes + Seq::new((length - bytes.len()) as nat, |i: int| 0u8)
    }
}

/// The packed bytes after bit `index` was set to `value`: lengthened with
/// zero bytes as far as the bit's byte, and that byte with the bit changed.
pub open spec fn bytes_with_bit(bytes: Seq<u8>, index: int, value: bool) -> Seq<u8> {
    let grown = padded(bytes, index / 8 + 1);
    grown.update(index / 8, byte_with_bit(grown[index / 8], index % 8, value))
}

proof fn lemma_byte_with_bit(byte: u8, offset: int, value: bool, other: int)
    requires
        0 <= offset < 8,
        0 <= other < 8,
    ensures
        bit_of_byte(byte_with_bit(byte, offset, value), other) == (if other == offset {
            value
        } else {
            bit_of_byte(byte, other)
        }),
{
    let s: u8 = (7 - offset) as u8;
    let t: u8 = (7 - other) as u8;
    assert(s < 8 && t < 8);
    assert((((byte | (1u8 << s)) >> t) & 1 == 1) == (t == s || ((byte >> t) & 1 == 1)))
        by (bit_vector)
        requires
            s < 8,
            t < 8,
    ;
    assert((((byte & !(1u8 << s)) >> t) & 1 == 1) == (t != s && ((byte >> t) & 1 == 1)))
        by (bit_vector)
        requires
            s < 8,
            t < 8,
    ;
}

proof fn lemma_zero_byte(offset: int)
    requires
        0 <= offset < 8,
    ensures
        !bit_of_byte(0u8, offset),
{
    let s: u8 = (7 - offset) as u8;
    assert(((0u8 >> s) & 1 == 1) == false) by (bit_vector)
        requires
            s < 8,
    ;
}

/// Whether `index` names a checkbox of a board of `number_of_checkboxes`.
pub fn check_index(index: usize, number_of_checkboxes: usize) -> (checked: Result<(), StoreError>)
    ensures
        index < number_of_checkboxes ==> checked == Ok::<(), StoreError>(()),
        index >= number_of_checkboxes ==> checked == Err::<(), StoreError>(StoreError::OutOfRange),
{
    if index >= number_of_checkboxes {
        Err(StoreError::OutOfRange)
    } else {
        Ok(())
    }
}

/// The checkbox bit-vector: a fixed number of bits held in a packed byte
/// array that grows on demand. Bit `i` is bit `i % 8` of byte `i / 8`, counted
/// from the most significant bit; a bit past the last byte is clear.
pub struct BitVectorStore {
    bitmap: Vec<u8>,
    number_of_checkboxes: usize,
}

impl View for BitVectorStore {
    type V = Seq<bool>;

    /// The board: one bit per checkbox.
    open spec fn view(&self) -> Seq<bool> {
        board(self.bytes(), self.count() as nat)
    }
}

impl BitVectorStore {
    /// The packed bytes as stored.
    pub closed spec fn bytes(&self) -> Seq<u8> {
        self.bitmap@
    }

    /// The number of checkboxes.
    pub closed spec fn count(&self) -> usize {
        self.number_of_checkboxes
    }

    /// A board of `number_of_checkboxes` bits, all clear, with nothing
    /// stored yet.
    pub fn new(number_of_checkboxes: usize) -> (store: Self)
        ensures
            store.count() == number_of_checkboxes,
            store.bytes() == Seq::<u8>::empty(),
            store@ == Seq::new(number_of_checkboxes as nat, |i: int| false),
    {
        let store = BitVectorStore { bitmap: Vec::new(), number_of_checkboxes };
        assert(store@ =~= Seq::new(number_of_checkboxes as nat, |i: int| false));
        store
    }

    /// The board that the packed bytes `bitmap` hold.
    pub fn from_raw(bitmap: Vec<u8>, number_of_checkboxes: usize) -> (store: Self)
        ensures
            store.count() == number_of_checkboxes,
            store.bytes() == bitmap@,
    {
        BitVectorStore { bitmap, number_of_checkboxes }
    }

    pub fn number_of_checkboxes(&self) -> (n: usize)
        ensures
            n == self.count(),
    {
        self.number_of_checkboxes
    }

    /// The packed bytes.
    pub fn raw(&self) -> (bitmap: &Vec<u8>)
        ensures
            bitmap@ == self.bytes(),
    {
        &self.bitmap
    }

    /// The full state: the indices that are set and those that are clear,
    /// each ascending, together covering every checkbox.
    pub fn get_snapshot(&self) -> (snapshot: CheckboxState)
        ensures
            snapshot.true_indices@ == indices_of(self@, true),
            snapshot.false_indices@ == indices_of(self@, false),
            snapshot.is_initial,
            snapshot.partitions(self.count() as nat),
            forall|i: usize| i < self.count() ==> snapshot.true_indices@.contains(i) == self@[i as int],
    {
        let (true_indices, false_indices) = partition_board(&self.bitmap, self.number_of_checkboxes);
        proof {
            lemma_snapshot_partitions(self@);
            assert forall|i: usize| i < self.count() implies (#[trigger] true_indices@.contains(i)
                != false_indices@.contains(i)) && true_indices@.contains(i) == self@[i as int] by {
                assert(indices_of(self@, true).contains(i as int as usize) <==> self@[i as int]);
                assert(indices_of(self@, false).contains(i as int as usize) <==> !self@[i as int]);
            }
        }
        CheckboxState { true_indices, false_indices, is_initial: true }
    }

    /// Sets checkbox `index` to `value`. An index that is not below the
    /// number of checkboxes is refused and nothing changes. Otherwise the
    /// bytes grow, with zeros, as far as the bit's byte, and no other bit
    /// changes.
    pub fn set_bit(&mut self, index: usize, value: bool) -> (outcome: Result<(), StoreError>)
        ensures
            final(self).count() == old(self).count(),
            index >= old(self).count() ==> outcome == Err::<(), StoreError>(StoreError::OutOfRange)
                && final(self).bytes() == old(self).bytes(),
            index < old(self).count() ==> {
                &&& outcome == Ok::<(), StoreError>(())
                &&& final(self)@ == old(self)@.update(index as int, value)
                &&& final(self).bytes() == bytes_with_bit(old(self).bytes(), index as int, value)
            },
    {
        match check_index(index, self.number_of_checkboxes) {
            Err(e) => {
                return Err(e);
            },
            Ok(()) => {},
        }
        let byte_index: usize = index / 8;
        let ghost before = self@;
        while self.bitmap.len() <= byte_index
            invariant
                self.number_of_checkboxes == old(self).number_of_checkboxes,
                self@ == before,
                byte_index == index / 8,
                self.bitmap@.len() <= byte_index + 1 || self.bitmap@.len() == old(self).bitmap@.len(),
                self.bitmap@ == padded(old(self).bitmap@, self.bitmap@.len() as int),
            decreases byte_index + 1 - self.bitmap.len(),
        {
            let ghost prev = self.bitmap@;
            self.bitmap.push(0u8);
            proof {
                assert forall|i: int| 0 <= i < self.number_of_checkboxes implies #[trigger] self@[i]
                    == before[i] by {
                    if prev.len() * 8 <= i < self.bitmap@.len() * 8 {
                        lemma_zero_byte(i % 8);
                    }
                }
                assert(self@ =~= before);
                assert(self.bitmap@ =~= padded(old(self).bitmap@, self.bitmap@.len() as int));
            }
        }
        assert(self.bitmap@ =~= padded(old(self).bitmap@, byte_index + 1));
        let offset: u8 = (index % 8) as u8;
        let mask: u8 = 1u8 << (7 - offset);
        let byte: u8 = self.bitmap[byte_index];
        let updated: u8 = if value {
            byte | mask
        } else {
            byte & !mask
        };
        assert(updated == byte_with_bit(byte, offset as int, value));
        self.bitmap.set(byte_index, updated);
        proof {
            assert forall|i: int| 0 <= i < self.number_of_checkboxes implies #[trigger] self@[i]
                == before.update(index as int, value)[i] by {
                if i / 8 == byte_index as int {
                    lemma_byte_with_bit(byte, offset as int, value, i % 8);
                }
            }
            assert(self@ =~= before.update(index as int, value));
        }
        Ok(())
    }
}

/// A snapshot is a partition: every index of the board stands in the part
/// that matches its bit and not in the other, no index stands twice in a
/// part, and the two parts together have as many entries as the board has
/// bits.
pub proof fn lemma_snapshot_partitions(bits: Seq<bool>)
    requires
        bits.len() <= usize::MAX,
    ensures
        forall|i: int|
            0 <= i < bits.len() ==> (indices_of(bits, true).contains(i as usize) <==> #[trigger] bits[i]),
        forall|i: int|
            0 <= i < bits.len() ==> (indices_of(bits, false).contains(i as usize) <==> !#[trigger] bits[i]),
        forall|x: usize| indices_of(bits, true).contains(x) ==> x < bits.len(),
        forall|x: usize| indices_of(bits, false).contains(x) ==> x < bits.len(),
        indices_of(bits, true).no_duplicates(),
        indices_of(bits, false).no_duplicates(),
        indices_of(bits, true).len() + indices_of(bits, false).len() == bits.len(),
{
    lemma_indices_below(bits, bits.len() as int, true);
    lemma_indices_below(bits, bits.len() as int, false);
}

/// Two boards of one length with the same set indices are the same board:
/// a snapshot gives back the pattern it was taken from.
pub proof fn lemma_snapshot_round_trip(a: Seq<bool>, b: Seq<bool>)
    requires
        a.len() == b.len(),
        a.len() <= usize::MAX,
        indices_of(a, true) == indices_of(b, true),
    ensures
        a == b,
{
    lemma_snapshot_partitions(a);
    lemma_snapshot_partitions(b);
    assert forall|i: int| 0 <= i < a.len() implies a[i] == b[i] by {
        assert(indices_of(a, true).contains(i as usize) <==> a[i]);
        assert(indices_of(b, true).contains(i as usize) <==> b[i]);
    }
    assert(a =~= b);
}

/// After checkbox `index` was set to `value`, a snapshot lists `index` among
/// the indices of that value and not among the others, and every other
/// checkbox where it was.
pub proof fn lemma_set_bit_then_snapshot(bits: Seq<bool>, index: usize, value: bool)
    requires
        index < bits.len() <= usize::MAX,
    ensures
        indices_of(bits.update(index as int, value), value).contains(index),
        !indices_of(bits.update(index as int, value), !value).contains(index),
        forall|i: int, v: bool|
            0 <= i < bits.len() && i != index ==> (#[trigger] indices_of(
                bits.update(index as int, value),
                v,
            ).contains(i as usize) <==> indices_of(bits, v).contains(i as usize)),
{
    let after = bits.update(index as int, value);
    lemma_snapshot_partitions(bits);
    lemma_snapshot_partitions(after);
    assert(after[index as int] == value);
    assert forall|i: int, v: bool| 0 <= i < bits.len() && i != index implies (#[trigger] indices_of(
        after,
        v,
    ).contains(i as usize) <==> indices_of(bits, v).contains(i as usize)) by {
        assert(after[i] == bits[i]);
    }
}

} // verus!
