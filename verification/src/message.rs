//! A single shared message slot: one process stores up to `BUFSIZE` bytes,
//! another reads back a prefix of what was stored.

use vstd::prelude::*;

verus! {

/// Capacity of the message slot in bytes.
pub const BUFSIZE: usize = 4096;

/// Why a message request was refused.
#[derive(Debug, Clone, Copy, PartialEq, Eq, Structural)]
pub enum MessageError {
    /// The requested length exceeds what the slot or the caller's buffer holds.
    OutOfRange,
}

impl MessageError {
    /// The human-readable description of the error.
    pub fn as_str(&self) -> (s: &'static str)
        ensures
            s@ == "out of range"@,
    {
        match self {
            MessageError::OutOfRange => "out of range",
        }
    }
}

/// Whether a request to store `len` bytes taken from a buffer of `buf_len`
/// bytes is accepted: the length fits both the slot and the source.
pub open spec fn set_accepts(buf_len: int, len: int) -> bool {
    len <= BUFSIZE && len <= buf_len
}

/// Whether a request to read `len` bytes into a buffer of `out_len` bytes,
/// while `stored_len` bytes are stored, is accepted: the length fits both
/// the stored message and the destination.
pub open spec fn get_accepts(stored_len: int, out_len: int, len: int) -> bool {
    len <= stored_len && len <= out_len
}

/// The stored message after an accepted request to store `len` bytes of `buf`.
pub open spec fn stored_after_set(buf: Seq<u8>, len: int) -> Seq<u8> {
    buf.take(len)
}

/// The destination after an accepted read of `len` bytes of `stored` into `out`:
/// its first `len` bytes are replaced, the rest is left as it was.
pub open spec fn out_after_get(stored: Seq<u8>, out: Seq<u8>, len: int) -> Seq<u8> {
    stored.take(len) + out.skip(len)
}

/// The stored message after a request to store `len` bytes of `buf`,
/// whether it is accepted or refused.
pub open spec fn store_outcome(stored: Seq<u8>, buf: Seq<u8>, len: int) -> Seq<u8> {
    if set_accepts(buf.len() as int, len) {
        stored_after_set(buf, len)
    } else {
        stored
    }
}

/// The stored message after a run of store requests, each a source buffer
/// and a length, made in order.
pub open spec fn stores_outcome(stored: Seq<u8>, reqs: Seq<(Seq<u8>, int)>) -> Seq<u8>
    decreases reqs.len(),
{
    if reqs.len() == 0 {
        stored
    } else {
        store_outcome(stores_outcome(stored, reqs.drop_last()), reqs.last().0, reqs.last().1)
    }
}

/// The message slot: a fixed array and the length of the valid prefix.
pub struct MessageBuffer {
    data: [u8; 4096],
    valid_len: usize,
}

impl View for MessageBuffer {
    type V = Seq<u8>;

    /// The message currently stored.
    closed spec fn view(&self) -> Seq<u8> {
        self.data@.take(self.valid_len as int)
    }
}

impl MessageBuffer {
    /// All bytes of the slot's storage, the stored message and what lies
    /// past it.
    pub closed spec fn storage(&self) -> Seq<u8> {
        self.data@
    }

    /// Well-formedness: the valid prefix fits in the slot.
    pub closed spec fn wf(&self) -> bool {
        self.valid_len <= BUFSIZE
    }

    /// An empty slot.
    pub fn new() -> (r: Self)
        ensures
            r.wf(),
            r@ == Seq::<u8>::empty(),
            r.storage() == Seq::new(BUFSIZE as nat, |i: int| 0u8),
    {
        let r = MessageBuffer { data: [0u8; 4096], valid_len: 0 };
        assert(r.storage() =~= Seq::new(BUFSIZE as nat, |i: int| 0u8));
        r
    }

    /// Stores the first `len` bytes of `buf` as the new message, replacing
    /// the old one whole. Refused, with the slot unchanged, when `len` exceeds
    /// the slot's capacity or the length of `buf`.
    pub fn set_msg(&mut self, buf: &[u8], len: usize) -> (r: Result<usize, MessageError>)
        requires
            old(self).wf(),
        ensures
            final(self).wf(),
            r is Ok <==> set_accepts(buf@.len() as int, len as int),
            r matches Ok(n) ==> n == len && final(self)@ == stored_after_set(buf@, len as int),
            r is Ok ==> final(self).storage() == buf@.take(len as int) + old(self).storage().skip(
                len as int,
            ),
            r is Err ==> r == Err::<usize, MessageError>(MessageError::OutOfRange) && *final(self)
                == *old(self),
            final(self)@ == store_outcome(old(self)@, buf@, len as int),
    {
        if len > BUFSIZE || len > buf.len() {
            return Err(MessageError::OutOfRange);
        }
        let mut i: usize = 0;
        while i < len
            invariant
                i <= len,
                len <= BUFSIZE,
                len <= buf@.len(),
                self.valid_len <= BUFSIZE,
                self.data@.len() == BUFSIZE,
                forall|j: int| 0 <= j < i ==> self.data@[j] == buf@[j],
                forall|j: int| i <= j < BUFSIZE ==> self.data@[j] == old(self).data@[j],
            decreases len - i,
        {
            self.data[i] = buf[i];
            i = i + 1;
        }
        self.valid_len = len;
        assert(self@ =~= buf@.take(len as int));
        assert(self.storage() =~= buf@.take(len as int) + old(self).storage().skip(len as int));
        Ok(len)
    }

    /// Copies the first `len` bytes of the stored message into the front of
    /// `buf`. Refused, with `buf` unchanged, when `len` exceeds the stored
    /// message or the length of `buf`.
    pub fn get_msg(&self, buf: &mut [u8], len: usize) -> (r: Result<usize, MessageError>)
        requires
            self.wf(),
        ensures
            r is Ok <==> get_accepts(self@.len() as int, old(buf)@.len() as int, len as int),
            r matches Ok(n) ==> n == len && final(buf)@ == out_after_get(self@, old(buf)@, len as int),
            r is Err ==> r == Err::<usize, MessageError>(MessageError::OutOfRange) && final(buf)@
                == old(buf)@,
    {
        if len > self.valid_len || len > buf.len() {
            return Err(MessageError::OutOfRange);
        }
        let mut i: usize = 0;
        while i < len
            invariant
                i <= len,
                len <= self.valid_len,
                self.valid_len <= BUFSIZE,
                self.data@.len() == BUFSIZE,
                buf@.len() == old(buf)@.len(),
                len <= buf@.len(),
                forall|j: int| 0 <= j < i ==> buf@[j] == self.data@[j],
                forall|j: int| i <= j < buf@.len() ==> buf@[j] == old(buf)@[j],
            decreases len - i,
        {
            buf[i] = self.data[i];
            i = i + 1;
        }
        assert(buf@ =~= out_after_get(self@, old(buf)@, len as int));
        Ok(len)
    }
}

/// A read of a stored message gives back what was written: once the first
/// `len` bytes of `msg` are stored, a read of any `k <= len` bytes into a
/// buffer of at least `k` bytes is accepted, fills the buffer's front with
/// the first `k` bytes of `msg` and leaves the rest of the buffer as it was.
pub proof fn lemma_read_after_write(msg: Seq<u8>, len: int, out: Seq<u8>, k: int)
    requires
        0 <= k <= len,
        set_accepts(msg.len() as int, len),
        k <= out.len(),
    ensures
        get_accepts(stored_after_set(msg, len).len() as int, out.len() as int, k),
        out_after_get(stored_after_set(msg, len), out, k).take(k) == msg.take(k),
        out_after_get(stored_after_set(msg, len), out, k).skip(k) == out.skip(k),
        out_after_get(stored_after_set(msg, len), out, k).len() == out.len(),
{
    let r = out_after_get(stored_after_set(msg, len), out, k);
    assert(r.take(k) =~= msg.take(k));
    assert(r.skip(k) =~= out.skip(k));
}

/// A store replaces the previous message whole: once `len` bytes are stored,
/// a read of more than `len` bytes is refused, however long the message
/// stored before was.
pub proof fn lemma_read_beyond_write_refused(msg: Seq<u8>, len: int, out_len: int, k: int)
    requires
        0 <= len,
        set_accepts(msg.len() as int, len),
        k > len,
    ensures
        !get_accepts(stored_after_set(msg, len).len() as int, out_len, k),
{
}

/// A well-formed slot holds at most `BUFSIZE` bytes of message in a
/// storage of exactly `BUFSIZE` bytes, of which the message is the front.
pub proof fn lemma_slot_bounded(b: MessageBuffer)
    requires
        b.wf(),
    ensures
        b@.len() <= BUFSIZE,
        b.storage().len() == BUFSIZE,
        b@ == b.storage().take(b@.len() as int),
{
}

/// A read gives back what the last accepted store wrote, however many
/// refused stores came after it: once the first `len` bytes of `msg` are
/// stored and every later request in `reqs` is refused, a read of any
/// `k <= len` bytes into a buffer of at least `k` bytes is accepted and
/// fills the buffer's front with the first `k` bytes of `msg`. Reads do not
/// change the slot, so this holds for every read in turn.
pub proof fn lemma_read_after_write_through_refusals(
    msg: Seq<u8>,
    len: int,
    reqs: Seq<(Seq<u8>, int)>,
    out: Seq<u8>,
    k: int,
)
    requires
        0 <= k <= len,
        set_accepts(msg.len() as int, len),
        forall|i: int| 0 <= i < reqs.len() ==> !set_accepts(#[trigger] reqs[i].0.len() as int, reqs[i].1),
        k <= out.len(),
    ensures
        stores_outcome(stored_after_set(msg, len), reqs) == stored_after_set(msg, len),
        get_accepts(stores_outcome(stored_after_set(msg, len), reqs).len() as int, out.len() as int, k),
        out_after_get(stores_outcome(stored_after_set(msg, len), reqs), out, k).take(k) == msg.take(k),
    decreases reqs.len(),
{
    if reqs.len() > 0 {
        let rest = reqs.drop_last();
        assert forall|i: int| 0 <= i < rest.len() implies !set_accepts(
            #[trigger] rest[i].0.len() as int,
            rest[i].1,
        ) by {
            assert(rest[i] == reqs[i]);
        }
        lemma_read_after_write_through_refusals(msg, len, rest, out, k);
        assert(!set_accepts(reqs[reqs.len() - 1].0.len() as int, reqs[reqs.len() - 1].1));
    }
    lemma_read_after_write(msg, len, out, k);
}

/// Stores a message in `buffer`; see [`MessageBuffer::set_msg`].
pub fn set_msg(buffer: &mut MessageBuffer, buf: &[u8], len: usize) -> (r: Result<
    usize,
    MessageError,
>)
    requires
        old(buffer).wf(),
    ensures
        final(buffer).wf(),
        r is Ok <==> set_accepts(buf@.len() as int, len as int),
        r matches Ok(n) ==> n == len && final(buffer)@ == stored_after_set(buf@, len as int),
        r is Ok ==> final(buffer).storage() == buf@.take(len as int) + old(buffer).storage().skip(
            len as int,
        ),
        r is Err ==> r == Err::<usize, MessageError>(MessageError::OutOfRange) && *final(buffer)
            == *old(buffer),
        final(buffer)@ == store_outcome(old(buffer)@, buf@, len as int),
{
    buffer.set_msg(buf, len)
}

/// Reads a message from `buffer`; see [`MessageBuffer::get_msg`].
pub fn get_msg(buffer: &MessageBuffer, buf: &mut [u8], len: usize) -> (r: Result<
    usize,
    MessageError,
>)
    requires
        buffer.wf(),
    ensures
        r is Ok <==> get_accepts(buffer@.len() as int, old(buf)@.len() as int, len as int),
        r matches Ok(n) ==> n == len && final(buf)@ == out_after_get(buffer@, old(buf)@, len as int),
        r is Err ==> r == Err::<usize, MessageError>(MessageError::OutOfRange) && final(buf)@
            == old(buf)@,
{
    buffer.get_msg(buf, len)
}

} // verus!
