//! The payload cursor, the positional argument decoder, and the service
//! that ties a decoded argument list to a registered handler.
use vstd::prelude::*;

use crate::handler::{Factory, Handler};
use crate::scalar::{
    ScalarKind, ScalarValue, decoded, le_word, lemma_le_nat_bound, lemma_pow256_values,
    lemma_usize_range, spec_width, to_signed64,
};

verus! {

/// The normalized outcome of one handler invocation.
#[derive(Clone, Copy, Debug, PartialEq, Eq, Structural)]
pub enum HttpStatus {
    Success,
    Failed,
}

/// Why a payload failed to decode: it held fewer bytes than the
/// handler's declared arguments require.
#[derive(Clone, Copy, Debug, PartialEq, Eq, Structural)]
pub enum DecodeError {
    Truncated,
}

/// A read-only view over a byte buffer with a read position. Typed reads
/// advance the position and never pass the end of the buffer.
pub struct Payload {
    pub data: Vec<u8>,
    pub pos: usize,
}

impl Payload {
    /// The read position never lies past the end of the buffer.
    pub open spec fn wf(&self) -> bool {
        self.pos <= self.data@.len()
    }

    /// How many bytes remain to be read.
    pub open spec fn spec_remaining(&self) -> int {
        self.data@.len() - self.pos
    }

    /// A cursor at the start of a copy of `bytes`.
    pub fn from_bytes(bytes: &[u8]) -> (p: Payload)
        ensures
            p.wf(),
            p.data@ == bytes@,
            p.pos == 0,
    {
        Payload { data: vstd::slice::slice_to_vec(bytes), pos: 0 }
    }

    /// The number of bytes left to read.
    pub fn len(&self) -> (n: usize)
        requires
            self.wf(),
        ensures
            n == self.spec_remaining(),
    {
        self.data.len() - self.pos
    }

    /// Reads one scalar of kind `kind` from the current position.
    ///
    /// With at least `spec_width(kind)` bytes left, the read succeeds,
    /// returns exactly the decoded window and advances past it; with
    /// fewer it fails with `Truncated` and moves nothing.
    pub fn read(&mut self, kind: ScalarKind) -> (r: Result<ScalarValue, DecodeError>)
        requires
            old(self).wf(),
        ensures
            final(self).wf(),
            final(self).data@ == old(self).data@,
            old(self).spec_remaining() >= spec_width(kind) ==> ({
                &&& final(self).pos == old(self).pos + spec_width(kind)
                &&& r == Ok::<ScalarValue, DecodeError>(
                    decoded(
                        kind,
                        old(self).data@.subrange(
                            old(self).pos as int,
                            old(self).pos + spec_width(kind),
                        ),
                    ),
                )
            }),
            old(self).spec_remaining() < spec_width(kind) ==> ({
                &&& final(self).pos == old(self).pos
                &&& r == Err::<ScalarValue, DecodeError>(DecodeError::Truncated)
            }),
    {
        let w = kind.width();
        if self.data.len() - self.pos < w {
            return Err(DecodeError::Truncated);
        }
        let word = le_word(&self.data, self.pos, w);
        let ghost win = self.data@.subrange(self.pos as int, self.pos + w as int);
        proof {
            lemma_pow256_values();
            lemma_usize_range();
            assert(win.len() == w);
            lemma_le_nat_bound(win);
        }
        let value = match kind {
            ScalarKind::U8 => ScalarValue::U8(word as u8),
            ScalarKind::U16 => ScalarValue::U16(word as u16),
            ScalarKind::U32 => ScalarValue::U32(word as u32),
            ScalarKind::U64 => ScalarValue::U64(word),
            ScalarKind::Usize => if word <= usize::MAX as u64 {
                proof {
                    vstd::arithmetic::div_mod::lemma_small_mod(
                        word as nat,
                        usize::MAX as nat + 1,
                    );
                }
                ScalarValue::Usize(word as usize)
            } else {
                ScalarValue::Usize((word % (usize::MAX as u64 + 1)) as usize)
            },
            ScalarKind::I8 => ScalarValue::I8(to_signed64(word, 1) as i8),
            ScalarKind::I16 => ScalarValue::I16(to_signed64(word, 2) as i16),
            ScalarKind::I32 => ScalarValue::I32(to_signed64(word, 4) as i32),
            ScalarKind::I64 => ScalarValue::I64(to_signed64(word, 8)),
            ScalarKind::Isize => if usize::BITS == 64 {
                ScalarValue::Isize(to_signed64(word, 8) as isize)
            } else {
                ScalarValue::Isize(to_signed64(word % 0x1_0000_0000, 4) as isize)
            },
            ScalarKind::F32 => ScalarValue::F32Bits(word as u32),
            ScalarKind::F64 => ScalarValue::F64Bits(word),
        };
        self.pos = self.pos + w;
        Ok(value)
    }
}

/// Total byte width of a declared argument signature.
pub open spec fn total_width(sig: Seq<ScalarKind>) -> nat
    decreases sig.len(),
{
    if sig.len() == 0 {
        0
    } else {
        spec_width(sig[0]) + total_width(sig.drop_first())
    }
}

/// The argument values a signature decodes to, element by element in
/// declaration order, starting at byte offset `pos`.
pub open spec fn decoded_seq(sig: Seq<ScalarKind>, bytes: Seq<u8>, pos: int) -> Seq<ScalarValue>
    decreases sig.len(),
{
    if sig.len() == 0 {
        Seq::empty()
    } else {
        seq![decoded(sig[0], bytes.subrange(pos, pos + spec_width(sig[0])))]
            + decoded_seq(sig.drop_first(), bytes, pos + spec_width(sig[0]))
    }
}

proof fn lemma_total_width_take_succ(sig: Seq<ScalarKind>, i: int)
    requires
        0 <= i < sig.len(),
    ensures
        total_width(sig.take(i + 1)) == total_width(sig.take(i)) + spec_width(sig[i]),
    decreases i,
{
    if i == 0 {
        assert(sig.take(1).drop_first() =~= sig.take(0));
    } else {
        lemma_total_width_take_succ(sig.drop_first(), i - 1);
        assert(sig.take(i + 1).drop_first() =~= sig.drop_first().take(i));
        assert(sig.take(i).drop_first() =~= sig.drop_first().take(i - 1));
    }
}

proof fn lemma_total_width_take_le(sig: Seq<ScalarKind>, i: int)
    requires
        0 <= i <= sig.len(),
    ensures
        total_width(sig.take(i)) <= total_width(sig),
    decreases i,
{
    if i > 0 {
        lemma_total_width_take_le(sig.drop_first(), i - 1);
        assert(sig.take(i).drop_first() =~= sig.drop_first().take(i - 1));
    }
}

proof fn lemma_decoded_seq_take_succ(sig: Seq<ScalarKind>, bytes: Seq<u8>, pos: int, i: int)
    requires
        0 <= i < sig.len(),
    ensures
        decoded_seq(sig.take(i + 1), bytes, pos) == decoded_seq(sig.take(i), bytes, pos).push(
            decoded(
                sig[i],
                bytes.subrange(
                    pos + total_width(sig.take(i)),
                    pos + total_width(sig.take(i)) + spec_width(sig[i]),
                ),
            ),
        ),
    decreases i,
{
    let w0 = spec_width(sig[0]);
    if i == 0 {
        let t = sig.take(1);
        assert(t.len() == 1 && t[0] == sig[0]);
        assert(t.drop_first() =~= sig.take(0));
        assert(sig.take(0).len() == 0);
        assert(total_width(sig.take(0)) == 0);
        assert(decoded_seq(sig.take(0), bytes, pos + w0).len() == 0);
        assert(decoded_seq(t, bytes, pos) == seq![
            decoded(sig[0], bytes.subrange(pos, pos + w0)),
        ] + decoded_seq(sig.take(0), bytes, pos + w0));
        assert(decoded_seq(sig.take(1), bytes, pos) =~= decoded_seq(sig.take(0), bytes, pos).push(
            decoded(sig[0], bytes.subrange(pos, pos + w0)),
        ));
    } else {
        let d = sig.drop_first();
        lemma_decoded_seq_take_succ(d, bytes, pos + w0, i - 1);
        assert(sig.take(i + 1).drop_first() =~= d.take(i));
        assert(sig.take(i).drop_first() =~= d.take(i - 1));
        assert(sig.take(i + 1)[0] == sig[0] && sig.take(i)[0] == sig[0]);
        assert(d[i - 1] == sig[i]);
        assert(decoded_seq(sig.take(i + 1), bytes, pos) == seq![
            decoded(sig[0], bytes.subrange(pos, pos + w0)),
        ] + decoded_seq(d.take(i), bytes, pos + w0));
        assert(decoded_seq(sig.take(i), bytes, pos) == seq![
            decoded(sig[0], bytes.subrange(pos, pos + w0)),
        ] + decoded_seq(d.take(i - 1), bytes, pos + w0));
        assert(total_width(sig.take(i)) == w0 + total_width(d.take(i - 1)));
        assert(decoded_seq(sig.take(i + 1), bytes, pos) =~= decoded_seq(sig.take(i), bytes, pos)
            .push(
            decoded(
                sig[i],
                bytes.subrange(
                    pos + total_width(sig.take(i)),
                    pos + total_width(sig.take(i)) + spec_width(sig[i]),
                ),
            ),
        ));
    }
}

/// Decoding reads only the windows the signature covers: on two buffers
/// that agree up to the end of the shorter one, and whose windows lie
/// inside it, the decoded arguments are the same.
pub proof fn lemma_decoded_seq_window(sig: Seq<ScalarKind>, b1: Seq<u8>, b2: Seq<u8>, pos: int)
    requires
        0 <= pos,
        pos + total_width(sig) <= b1.len(),
        b1.len() <= b2.len(),
        forall|i: int| 0 <= i < b1.len() ==> b1[i] == b2[i],
    ensures
        decoded_seq(sig, b1, pos) == decoded_seq(sig, b2, pos),
    decreases sig.len(),
{
    if sig.len() > 0 {
        let w0 = spec_width(sig[0]);
        assert(total_width(sig) == w0 + total_width(sig.drop_first()));
        assert(b1.subrange(pos, pos + w0) =~= b2.subrange(pos, pos + w0));
        lemma_decoded_seq_window(sig.drop_first(), b1, b2, pos + w0);
    }
}

/// Trailing bytes beyond the declared arguments never change what a
/// payload decodes to: a buffer and the same buffer with anything
/// appended decode to the same argument values.
pub proof fn lemma_trailing_bytes_ignored(sig: Seq<ScalarKind>, bytes: Seq<u8>, extra: Seq<u8>)
    requires
        total_width(sig) <= bytes.len(),
    ensures
        decoded_seq(sig, bytes + extra, 0) == decoded_seq(sig, bytes, 0),
{
    assert(forall|i: int| 0 <= i < bytes.len() ==> bytes[i] == (bytes + extra)[i]);
    lemma_decoded_seq_window(sig, bytes, bytes + extra, 0);
}

/// A value that can be decoded from the front of a payload against a
/// declared argument signature, one element at a time in order.
pub trait FromPayload: Sized {
    /// The decoded argument values this value carries.
    spec fn arg_values(&self) -> Seq<ScalarValue>;

    /// Decodes a payload positionally. It succeeds exactly when the
    /// payload has at least `total_width(sig@)` bytes left; trailing
    /// bytes beyond the declared arguments are never an error.
    fn from(sig: &Vec<ScalarKind>, payload: &mut Payload) -> (r: Result<Self, DecodeError>)
        requires
            old(payload).wf(),
        ensures
            final(payload).wf(),
            final(payload).data@ == old(payload).data@,
            r is Ok <==> old(payload).spec_remaining() >= total_width(sig@),
            r matches Ok(args) ==> ({
                &&& args.arg_values() == decoded_seq(
                    sig@,
                    old(payload).data@,
                    old(payload).pos as int,
                )
                &&& final(payload).pos == old(payload).pos + total_width(sig@)
            }),
            r is Err ==> r == Err::<Self, DecodeError>(DecodeError::Truncated),
    ;
}

/// The uniform argument list every handler receives: the decoded scalar
/// values in declaration order.
pub struct ArgList {
    pub values: Vec<ScalarValue>,
}

impl View for ArgList {
    type V = Seq<ScalarValue>;

    open spec fn view(&self) -> Seq<ScalarValue> {
        self.values@
    }
}

impl FromPayload for ArgList {
    open spec fn arg_values(&self) -> Seq<ScalarValue> {
        self.values@
    }

    fn from(sig: &Vec<ScalarKind>, payload: &mut Payload) -> (r: Result<Self, DecodeError>) {
        let mut values: Vec<ScalarValue> = Vec::new();
        let n = sig.len();
        let mut i: usize = 0;
        while i < n
            invariant
                n == sig@.len(),
                i <= n,
                payload.wf(),
                old(payload).wf(),
                payload.data@ == old(payload).data@,
                payload.pos == old(payload).pos + total_width(sig@.take(i as int)),
                values@ == decoded_seq(sig@.take(i as int), old(payload).data@, old(payload).pos as int),
            decreases n - i,
        {
            let k = sig[i];
            proof {
                lemma_total_width_take_succ(sig@, i as int);
                lemma_total_width_take_le(sig@, i as int + 1);
            }
            match payload.read(k) {
                Ok(v) => {
                    proof {
                        lemma_decoded_seq_take_succ(
                            sig@,
                            old(payload).data@,
                            old(payload).pos as int,
                            i as int,
                        );
                    }
                    values.push(v);
                },
                Err(_) => {
                    return Err(DecodeError::Truncated);
                },
            }
            i = i + 1;
        }
        proof {
            assert(sig@.take(n as int) =~= sig@);
        }
        Ok(ArgList { values })
    }
}

/// A handler bound to its declared argument signature, behind the uniform
/// "decode the payload, then call" surface the registry stores.
pub struct BoxedService<F> {
    pub sig: Vec<ScalarKind>,
    pub handler: Handler<F>,
}

impl<F: Factory> BoxedService<F> {
    /// Wraps a handler and its declared argument signature.
    pub fn from_handler(handler: Handler<F>, sig: Vec<ScalarKind>) -> (s: BoxedService<F>)
        ensures
            s == (BoxedService { sig, handler }),
    {
        BoxedService { sig, handler }
    }

    /// Decodes the payload against the declared signature and calls the
    /// handler on success; a short payload yields `Failed`, never a panic.
    pub fn handle(&self, payload: Payload) -> (r: HttpStatus)
        requires
            payload.wf(),
        ensures
            payload.spec_remaining() < total_width(self.sig@) ==> r == HttpStatus::Failed,
            payload.spec_remaining() >= total_width(self.sig@) ==> r == self.handler.f.spec_call(
                decoded_seq(self.sig@, payload.data@, payload.pos as int),
            ),
    {
        let mut cursor = payload;
        match <ArgList as FromPayload>::from(&self.sig, &mut cursor) {
            Ok(args) => self.handler.call(args),
            Err(_) => HttpStatus::Failed,
        }
    }
}

} // verus!
