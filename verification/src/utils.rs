use vstd::prelude::*;

verus! {

/// Bit `offset` of `byte`, counting from the most significant bit.
pub open spec fn bit_of_byte(byte: u8, offset: int) -> bool {
    (byte >> ((7 - offset) as u8)) & 1 == 1
}

/// The bits packed in `bytes`, eight per byte, most significant first.
pub open spec fn unpack(bytes: Seq<u8>) -> Seq<bool> {
    Seq::new(8 * bytes.len(), |i: int| bit_of_byte(bytes[i / 8], i % 8))
}

/// The first `n` bits of the board that `bytes` holds: a bit past the last
/// byte is clear.
pub open spec fn board(bytes: Seq<u8>, n: nat) -> Seq<bool> {
    Seq::new(n, |i: int| i < 8 * bytes.len() && bit_of_byte(bytes[i / 8], i % 8))
}

/// The indices below `n` at which `bits` holds `value`, ascending.
pub open spec fn indices_below(bits: Seq<bool>, n: int, value: bool) -> Seq<usize>
    decreases n,
{
    if n <= 0 {
        Seq::empty()
    } else if bits[n - 1] == value {
        indices_below(bits, n - 1, value).push((n - 1) as usize)
    } else {
        indices_below(bits, n - 1, value)
    }
}

/// All indices at which `bits` holds `value`, ascending.
pub open spec fn indices_of(bits: Seq<bool>, value: bool) -> Seq<usize> {
    indices_below(bits, bits.len() as int, value)
}

/// What `indices_below` holds: exactly the matching indices, each once, in
/// strictly ascending order.
pub proof fn lemma_indices_below(bits: Seq<bool>, n: int, value: bool)
    requires
        0 <= n <= bits.len(),
        n <= usize::MAX + 1,
    ensures
        indices_below(bits, n, value).len() <= n,
        forall|k: int|
            0 <= k < indices_below(bits, n, value).len() ==> {
                &&& (#[trigger] indices_below(bits, n, value)[k]) < n
                &&& bits[indices_below(bits, n, value)[k] as int] == value
            },
        forall|j: int, k: int|
            0 <= j < k < indices_below(bits, n, value).len() ==> indices_below(bits, n, value)[j]
                < indices_below(bits, n, value)[k],
        forall|i: int|
            0 <= i < n && bits[i] == value ==> indices_below(bits, n, value).contains(i as usize),
        indices_below(bits, n, value).len() + indices_below(bits, n, !value).len() == n,
    decreases n,
{
    if n > 0 {
        lemma_indices_below(bits, n - 1, value);
        let prev = indices_below(bits, n - 1, value);
        let cur = indices_below(bits, n, value);
        assert forall|i: int| 0 <= i < n && bits[i] == value implies cur.contains(i as usize) by {
            if i < n - 1 {
                let k = choose|k: int| 0 <= k < prev.len() && prev[k] == i as usize;
                assert(cur[k] == i as usize);
            } else {
                assert(cur[cur.len() - 1] == i as usize);
            }
        }
    }
}

/// An index that `indices_below` lists is below `n` and holds `value`.
pub proof fn lemma_member_below(bits: Seq<bool>, n: int, value: bool, i: usize)
    requires
        0 <= n <= bits.len(),
        n <= usize::MAX + 1,
    ensures
        indices_below(bits, n, value).contains(i) <==> (i < n && bits[i as int] == value),
{
    lemma_indices_below(bits, n, value);
    let listed = indices_below(bits, n, value);
    if listed.contains(i) {
        let k = choose|k: int| 0 <= k < listed.len() && listed[k] == i;
        assert(listed[k] < n);
    }
    if i < n && bits[i as int] == value {
        assert(listed.contains(i as int as usize));
    }
}

/// Whether bit `index` of the packed board is set; a bit past the last byte
/// is clear.
pub fn bit_is_set(bitmap: &Vec<u8>, index: usize) -> (set: bool)
    ensures
        set == (index < 8 * bitmap@.len() && bit_of_byte(bitmap@[index as int / 8], index as int % 8)),
{
    let byte_index: usize = index / 8;
    if byte_index >= bitmap.len() {
        false
    } else {
        let offset: u8 = (index % 8) as u8;
        let shift: u8 = 7 - offset;
        (bitmap[byte_index] >> shift) & 1 == 1
    }
}

/// Splits the first `n` bits of the packed board into the indices that are
/// set and the indices that are clear.
pub fn partition_board(bitmap: &Vec<u8>, n: usize) -> (parts: (Vec<usize>, Vec<usize>))
    ensures
        parts.0@ == indices_of(board(bitmap@, n as nat), true),
        parts.1@ == indices_of(board(bitmap@, n as nat), false),
{
    let mut true_indices: Vec<usize> = Vec::new();
    let mut false_indices: Vec<usize> = Vec::new();
    let ghost bits = board(bitmap@, n as nat);
    let mut position: usize = 0;
    while position < n
        invariant
            position <= n,
            bits == board(bitmap@, n as nat),
            true_indices@ == indices_below(bits, position as int, true),
            false_indices@ == indices_below(bits, position as int, false),
        decreases n - position,
    {
        if bit_is_set(bitmap, position) {
            true_indices.push(position);
        } else {
            false_indices.push(position);
        }
        position += 1;
    }
    (true_indices, false_indices)
}

/// Decodes a packed bit array into the indices of its set bits and the
/// indices of its clear bits. Bytes are read in order and each byte from its
/// most significant bit, so bit `k` of byte `b` has index `8 * b + k`.
pub fn bitmap_to_tuple(bitmap: Vec<u8>) -> (parts: (Vec<usize>, Vec<usize>))
    requires
        8 * bitmap@.len() <= usize::MAX,
    ensures
        parts.0@ == indices_of(unpack(bitmap@), true),
        parts.1@ == indices_of(unpack(bitmap@), false),
        parts.0@.len() + parts.1@.len() == 8 * bitmap@.len(),
        forall|i: usize|
            i < 8 * bitmap@.len() ==> (#[trigger] parts.0@.contains(i) <==> bit_of_byte(
                bitmap@[i as int / 8],
                i as int % 8,
            )),
        forall|i: usize|
            i < 8 * bitmap@.len() ==> (#[trigger] parts.1@.contains(i) <==> !bit_of_byte(
                bitmap@[i as int / 8],
                i as int % 8,
            )),
{
    let mut true_indices: Vec<usize> = Vec::new();
    let mut false_indices: Vec<usize> = Vec::new();
    let ghost bits = unpack(bitmap@);
    let mut byte_index: usize = 0;
    while byte_index < bitmap.len()
        invariant
            byte_index <= bitmap.len(),
            8 * bitmap@.len() <= usize::MAX,
            bits == unpack(bitmap@),
            true_indices@ == indices_below(bits, 8 * byte_index, true),
            false_indices@ == indices_below(bits, 8 * byte_index, false),
        decreases bitmap.len() - byte_index,
    {
        let byte: u8 = bitmap[byte_index];
        let mut bit_index: u8 = 0;
        while bit_index < 8
            invariant
                byte_index < bitmap.len(),
                8 * bitmap@.len() <= usize::MAX,
                bit_index <= 8,
                byte == bitmap@[byte_index as int],
                bits == unpack(bitmap@),
                true_indices@ == indices_below(bits, 8 * byte_index + bit_index, true),
                false_indices@ == indices_below(bits, 8 * byte_index + bit_index, false),
            decreases 8 - bit_index,
        {
            let bit_position: usize = byte_index * 8 + bit_index as usize;
            let shift: u8 = 7 - bit_index;
            assert(bits[bit_position as int] == bit_of_byte(byte, bit_index as int));
            if (byte >> shift) & 1 == 1 {
                true_indices.push(bit_position);
            } else {
                false_indices.push(bit_position);
            }
            bit_index += 1;
        }
        byte_index += 1;
    }
    proof {
        lemma_indices_below(bits, bits.len() as int, true);
        lemma_indices_below(bits, bits.len() as int, false);
        assert forall|i: usize| i < 8 * bitmap@.len() implies (#[trigger] true_indices@.contains(i)
            <==> bit_of_byte(bitmap@[i as int / 8], i as int % 8)) by {
            lemma_member_below(bits, bits.len() as int, true, i);
        }
        assert forall|i: usize| i < 8 * bitmap@.len() implies (#[trigger] false_indices@.contains(i)
            <==> !bit_of_byte(bitmap@[i as int / 8], i as int % 8)) by {
            lemma_member_below(bits, bits.len() as int, false, i);
        }
    }
    (true_indices, false_indices)
}

} // verus!
