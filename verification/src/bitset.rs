use crate::bits::byte_bit;
use vstd::prelude::*;
use vstd::slice::slice_subrange;

verus! {

/// A buffer of bytes that is filled bit by bit, each byte from its highest
/// bit down.
#[derive(Debug)]
pub struct Bitset {
    buffer: Vec<u8>,
    cursor: u8,
}

/// Bit `i` of a number, bit 0 being the least significant; no bit is set
/// from index 64 on.
pub open spec fn bit64(value: u64, i: u64) -> bool {
    i < 64 && (value >> i) & 1u64 == 1u64
}

/// Bit `i` of `value`; no bit is set below index 0 or from index 64 on.
pub open spec fn value_bit(value: usize, i: int) -> bool {
    0 <= i < 64 && bit64(value as u64, i as u64)
}

/// How many bits a buffer of `len` bytes holds when `cursor` bits of its
/// last byte are in use; a cursor of 0 says that the last byte is full.
pub open spec fn stream_len(len: nat, cursor: nat) -> nat {
    if cursor == 0 {
        8 * len
    } else {
        (8 * (len - 1) + cursor) as nat
    }
}

/// The bits of a buffer in the order in which they were written: byte
/// after byte, each from its highest bit down.
pub open spec fn byte_stream(bytes: Seq<u8>, cursor: nat) -> Seq<bool> {
    Seq::new(
        stream_len(bytes.len(), cursor),
        |j: int| byte_bit(bytes[j / 8], (7 - j % 8) as u8),
    )
}

/// The `bits` low bits of `value`, the highest of them first.
pub open spec fn high_first(value: usize, bits: nat) -> Seq<bool> {
    Seq::new(bits, |j: int| value_bit(value, bits - 1 - j))
}

/// The stream after `bits` bits of `value` were appended to `stream`, of
/// which the last `cursor` bits stand in a byte that is not full yet: the
/// `bits` low bits of `value` follow, the highest first. The bits of
/// `value` above those are not cut off. The next `cursor` of them are
/// laid over the last `cursor` bits of `stream`, and each that is set
/// sets the bit under it.
pub open spec fn appended(stream: Seq<bool>, cursor: nat, value: usize, bits: nat) -> Seq<bool> {
    Seq::new(
        stream.len() + bits,
        |j: int|
            (j < stream.len() && stream[j]) || (j >= stream.len() - cursor && value_bit(
                value,
                bits - 1 + stream.len() - j,
            )),
    )
}

/// A value that has no bit set above its `bits` low bits is appended as
/// it is: the stream grows by those bits and is otherwise unchanged.
pub proof fn lemma_appended_in_range(stream: Seq<bool>, cursor: nat, value: usize, bits: nat)
    requires
        cursor <= stream.len(),
        forall|i: int| bits <= i < bits + cursor ==> !value_bit(value, i),
    ensures
        appended(stream, cursor, value, bits) == stream + high_first(value, bits),
{
    assert(appended(stream, cursor, value, bits) =~= stream + high_first(value, bits));
}

/// What one step of `append` makes of the byte that it writes to, at the
/// bits from `low` up.
proof fn lemma_chunk_written(byte: u8, source: u64, shift: u64, low: u8, k: u8, i: u64)
    by (bit_vector)
    requires
        shift < 64,
        low <= k < 8,
        i == shift + (k - low),
    ensures
        byte_bit(byte | ((((source >> shift) & 0xFF) as u8) << low), k) == (byte_bit(byte, k)
            || bit64(source, i)),
{
}

/// One step of `append` leaves the bits below `low` as they are.
proof fn lemma_chunk_kept(byte: u8, chunk: u8, low: u8, k: u8)
    by (bit_vector)
    requires
        k < low < 8,
    ensures
        byte_bit(byte | (chunk << low), k) == byte_bit(byte, k),
{
}

/// A mask of `count` low bits keeps those and clears the others.
proof fn lemma_masked(source: u64, count: u64, i: u64)
    by (bit_vector)
    requires
        count < 64,
    ensures
        (1u64 << count) >= 1,
        bit64(source & (((1u64 << count) - 1) as u64), i) == (i < count && bit64(source, i)),
{
}

/// The byte 0 has no bit set.
proof fn lemma_clear_byte(k: u8)
    by (bit_vector)
    requires
        k < 8,
    ensures
        !byte_bit(0u8, k),
{
}

/// The stream after one step of `append`: the `write_bits` bits of
/// `source` from `shift` up follow `stream`, the highest first, and the
/// `cursor` bits of `source` above those are laid over the last `cursor`
/// bits of `stream`.
pub open spec fn step_stream(
    stream: Seq<bool>,
    cursor: nat,
    source: u64,
    shift: nat,
    write_bits: nat,
) -> Seq<bool> {
    Seq::new(
        stream.len() + write_bits,
        |j: int|
            (j < stream.len() && stream[j]) || (j >= stream.len() - cursor && 0 <= shift
                + write_bits - 1 + stream.len() - j < 64 && bit64(
                source,
                (shift + write_bits - 1 + stream.len() - j) as u64,
            )),
    )
}

/// The buffer that a step of `append` writes to: a cleared byte is added
/// where the last byte is full.
pub open spec fn padded(bytes: Seq<u8>, cursor: u8) -> Seq<u8> {
    if cursor == 0 {
        bytes.push(0u8)
    } else {
        bytes
    }
}

/// One step of `append`, from the bytes to the stream.
proof fn lemma_step_stream(
    before: Seq<u8>,
    cursor: u8,
    after: Seq<u8>,
    source: u64,
    shift: u8,
    write_bits: u8,
)
    requires
        cursor < 8,
        cursor > 0 ==> before.len() > 0,
        cursor > 0 ==> forall|k: u8| k < 8 - cursor ==> !#[trigger] byte_bit(before.last(), k),
        1 <= write_bits <= 8 - cursor,
        shift + write_bits <= 64,
        after.len() == padded(before, cursor).len(),
        forall|i: int| 0 <= i < after.len() - 1 ==> after[i] == padded(before, cursor)[i],
        forall|k: u8|
            k < 8 ==> #[trigger] byte_bit(after.last(), k) == (byte_bit(
                padded(before, cursor).last(),
                k,
            ) || (k >= 8 - cursor - write_bits && bit64(
                source,
                (shift + (k - (8 - cursor - write_bits))) as u64,
            ))),
    ensures
        byte_stream(after, ((cursor + write_bits) % 8) as nat) == step_stream(
            byte_stream(before, cursor as nat),
            cursor as nat,
            source,
            shift as nat,
            write_bits as nat,
        ),
        (cursor + write_bits) % 8 > 0 ==> forall|k: u8|
            k < 8 - (cursor + write_bits) % 8 ==> !#[trigger] byte_bit(after.last(), k),
{
    let low = (8 - cursor - write_bits) as u8;
    let pad = padded(before, cursor);
    let old_stream = byte_stream(before, cursor as nat);
    let new_cursor = ((cursor + write_bits) % 8) as nat;
    let new_stream = byte_stream(after, new_cursor);
    let want = step_stream(old_stream, cursor as nat, source, shift as nat, write_bits as nat);
    let base = (after.len() - 1) * 8;
    assert(old_stream.len() == base + cursor);
    assert(new_stream.len() == old_stream.len() + write_bits);
    // The bits of the last byte that were not in use.
    assert forall|k: u8| k < 8 - cursor implies !#[trigger] byte_bit(pad.last(), k) by {
        if cursor == 0 {
            lemma_clear_byte(k);
        }
    }
    assert forall|j: int| 0 <= j < new_stream.len() implies new_stream[j] == want[j] by {
        if j < base {
            assert(j / 8 < after.len() - 1);
            assert(after[j / 8] == pad[j / 8]);
            assert(pad[j / 8] == before[j / 8]);
            assert(old_stream[j] == byte_bit(before[j / 8], (7 - j % 8) as u8));
        } else {
            let k = (7 - (j - base)) as u8;
            assert(j / 8 == after.len() - 1 && j % 8 == j - base);
            assert(after[j / 8] == after.last());
            assert(byte_bit(after.last(), k) == (byte_bit(pad.last(), k) || (k >= low && bit64(
                source,
                (shift + (k - low)) as u64,
            ))));
            assert(k >= low);
            assert(shift + (k - low) == shift + write_bits - 1 + old_stream.len() - j);
            if j < old_stream.len() {
                assert(pad.last() == before[j / 8]);
                assert(old_stream[j] == byte_bit(before[j / 8], k));
            } else {
                assert(k < 8 - cursor);
            }
        }
    }
    assert(new_stream =~= want);
    assert forall|k: u8| new_cursor > 0 && k < 8 - new_cursor implies !#[trigger] byte_bit(
        after.last(),
        k,
    ) by {
        assert(k < low);
    }
}

impl View for Bitset {
    type V = Seq<bool>;

    closed spec fn view(&self) -> Seq<bool> {
        byte_stream(self.buffer@, self.cursor as nat)
    }
}

impl Bitset {
    /// The bytes of the buffer.
    pub closed spec fn bytes(&self) -> Seq<u8> {
        self.buffer@
    }

    /// How many bits of the last byte are in use; 0 when it is full, or
    /// when there is no byte.
    pub closed spec fn cursor(&self) -> nat {
        self.cursor as nat
    }

    /// The cursor is below 8 and points into a byte that is there, and
    /// the bits of that byte that are not in use yet are cleared.
    pub closed spec fn wf(&self) -> bool {
        &&& self.cursor < 8
        &&& self.cursor > 0 ==> self.buffer@.len() > 0
        &&& self.cursor > 0 ==> forall|k: u8|
            k < 8 - self.cursor ==> !#[trigger] byte_bit(self.buffer@.last(), k)
    }

    /// Creates a new `Bitset`.
    pub fn new() -> (bitset: Self)
        ensures
            bitset.wf(),
            bitset.bytes() == Seq::<u8>::empty(),
            bitset.cursor() == 0,
            bitset@ == Seq::<bool>::empty(),
    {
        let bitset = Self { buffer: Vec::new(), cursor: 0 };
        assert(bitset@ =~= Seq::<bool>::empty());
        bitset
    }

    /// Appends the `bits` low bits of `value`, the highest of them first.
    /// A new byte is started when the last one is full. Bits of `value`
    /// above the `bits` low ones are not cut off: see `appended`.
    pub fn append(&mut self, value: usize, bits: u8)
        requires
            old(self).wf(),
            1 <= bits <= 64,
        ensures
            final(self).wf(),
            final(self)@ == appended(old(self)@, old(self).cursor(), value, bits as nat),
            final(self).cursor() == (old(self).cursor() + bits) % 8,
    {
        let ghost first_bytes = self.buffer@;
        let ghost first_cursor = self.cursor as nat;
        let ghost first_len = stream_len(first_bytes.len(), first_cursor);
        let ghost goal = appended(old(self)@, first_cursor, value, bits as nat);
        let mut remaining_bits: u8 = bits;
        let mut shifted_value: u64 = value as u64;
        while remaining_bits > 0
            invariant
                1 <= bits <= 64,
                remaining_bits <= bits,
                self.wf(),
                first_bytes == old(self).buffer@,
                first_cursor == old(self).cursor as nat,
                first_len == stream_len(first_bytes.len(), first_cursor),
                old(self).wf(),
                goal == appended(old(self)@, first_cursor, value, bits as nat),
                remaining_bits == bits ==> self.buffer@ == first_bytes && self.cursor
                    == first_cursor && shifted_value == value as u64,
                remaining_bits < bits ==> self@ =~= goal.take(first_len + bits - remaining_bits),
                0 < remaining_bits < bits ==> self.cursor == 0 && forall|i: u64|
                    i < remaining_bits ==> #[trigger] bit64(shifted_value, i) == bit64(
                        value as u64,
                        i,
                    ),
                self.cursor as nat == (first_cursor + bits - remaining_bits) % 8,
            decreases remaining_bits,
        {
            let ghost stream_before = self@;
            let ghost bytes_before = self.buffer@;
            let ghost cursor_before = self.cursor;
            if self.cursor == 0 {
                // Start a new byte if needed
                self.buffer.push(0);
            }
            let free_bits: u8 = 8 - self.cursor;
            let write_bits: u8 = if remaining_bits < free_bits {
                remaining_bits
            } else {
                free_bits
            };
            // The bits to write are those from `shift` up.
            let shift: u8 = remaining_bits - write_bits;
            let value_to_write: u8 = ((shifted_value >> (shift as u64)) & 0xFF) as u8;
            let last = self.buffer.len() - 1;
            let byte = self.buffer[last];
            let low: u8 = free_bits - write_bits;
            // Align the bits and write them to the byte
            let shifted: u8 = value_to_write << low;
            self.buffer.set(last, byte | shifted);
            proof {
                let written = byte | shifted;
                assert(byte == padded(bytes_before, cursor_before).last());
                assert forall|k: u8| k < 8 implies #[trigger] byte_bit(written, k) == (byte_bit(
                    byte,
                    k,
                ) || (k >= low && bit64(shifted_value, (shift + (k - low)) as u64))) by {
                    if k >= low {
                        lemma_chunk_written(
                            byte,
                            shifted_value,
                            shift as u64,
                            low,
                            k,
                            (shift + (k - low)) as u64,
                        );
                    } else {
                        lemma_chunk_kept(byte, value_to_write, low, k);
                    }
                }
                lemma_step_stream(
                    bytes_before,
                    cursor_before,
                    self.buffer@,
                    shifted_value,
                    shift,
                    write_bits,
                );
            }
            // Update cursor and remaining bits
            self.cursor = (self.cursor + write_bits) % 8;
            let ghost remaining_before = remaining_bits;
            remaining_bits -= write_bits;
            proof {
                let done = first_len + bits - remaining_bits;
                let stepped = step_stream(
                    stream_before,
                    cursor_before as nat,
                    shifted_value,
                    shift as nat,
                    write_bits as nat,
                );
                assert(self@ == stepped);
                assert forall|j: int| 0 <= j < done implies stepped[j] == goal[j] by {
                    let i = shift + write_bits - 1 + stream_before.len() - j;
                    if remaining_before < bits {
                        if j < stream_before.len() {
                            assert(stream_before[j] == goal.take(stream_before.len() as int)[j]);
                        } else {
                            assert(bit64(shifted_value, i as u64) == bit64(value as u64, i as u64));
                        }
                    }
                }
                assert(stepped =~= goal.take(done));
            }

            // If cursor wraps around, move to the next byte
            if self.cursor == 0 {
                proof {
                    let masked = shifted_value & (((1u64 << (remaining_bits as u64)) - 1) as u64);
                    assert forall|i: u64| i < remaining_bits implies #[trigger] bit64(masked, i)
                        == bit64(value as u64, i) by {
                        lemma_masked(shifted_value, remaining_bits as u64, i);
                    }
                    lemma_masked(shifted_value, remaining_bits as u64, 0);
                }
                // Keep only the remaining bits
                shifted_value = shifted_value & ((1u64 << (remaining_bits as u64)) - 1);
            }
        }
        assert(goal.take(first_len + bits) =~= goal);
    }

    /// Gets the current contents of the buffer.
    pub fn get(&self) -> (bytes: &Vec<u8>)
        ensures
            bytes@ == self.bytes(),
    {
        &self.buffer
    }

    /// Gets a slice of the buffer: `size` bytes from `position` on.
    pub fn get_slice(&self, position: usize, size: usize) -> (slice: &[u8])
        requires
            position < self.bytes().len(),
            position + size <= self.bytes().len(),
        ensures
            slice@ == self.bytes().subrange(position as int, position + size),
    {
        let len = self.buffer.len();
        slice_subrange(self.buffer.as_slice(), position, position + size)
    }

    /// Eight times the number of bytes, less the cursor.
    pub fn len(&self) -> (n: usize)
        requires
            self.wf(),
            self.bytes().len() * 8 <= usize::MAX,
        ensures
            n == self.bytes().len() * 8 - self.cursor(),
    {
        (self.buffer.len() * 8) - self.cursor as usize
    }
}

} // verus!
