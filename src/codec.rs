//! The artifact's framing: the ASCII magic `waveless_binary` followed by the body.

use vstd::prelude::*;

verus! {

/// The bytes of `waveless_binary`.
pub open spec fn magic() -> Seq<u8> {
    seq![119u8, 97, 118, 101, 108, 101, 115, 115, 95, 98, 105, 110, 97, 114, 121]
}

/// The length of the magic prefix.
pub const MAGIC_LEN: usize = 15;

/// Why an artifact could not be read.
#[derive(Clone, Copy, Debug, PartialEq, Eq, Structural)]
pub enum CodecError {
    /// The leading bytes are not the magic.
    MagicMismatch,
    /// The body ends early.
    Truncated,
    /// A tag or length of the body is out of range.
    Schema,
}

/// The body framed by `buffer`, when it starts with the magic.
pub open spec fn unframed(buffer: Seq<u8>) -> Option<Seq<u8>> {
    if buffer.len() >= MAGIC_LEN && buffer.subrange(0, MAGIC_LEN as int) == magic() {
        Some(buffer.subrange(MAGIC_LEN as int, buffer.len() as int))
    } else {
        None
    }
}

/// The magic prefix.
pub fn binary_magic() -> (r: Vec<u8>)
    ensures
        r@ == magic(),
{
    let r = vec![119u8, 97, 118, 101, 108, 101, 115, 115, 95, 98, 105, 110, 97, 114, 121];
    assert(r@ =~= magic());
    r
}

/// The artifact of a serialised build body: the magic, then the body.
pub fn encode_binary(body: &Vec<u8>) -> (r: Vec<u8>)
    ensures
        r@ == magic() + body@,
{
    let mut r = binary_magic();
    let mut i: usize = 0;
    while i < body.len()
        invariant
            i <= body@.len(),
            r@ == magic() + body@.subrange(0, i as int),
        decreases body@.len() - i,
    {
        r.push(body[i]);
        i = i + 1;
        assert(r@ =~= magic() + body@.subrange(0, i as int));
    }
    assert(body@.subrange(0, body@.len() as int) =~= body@);
    r
}

/// The body of an artifact; refused when the artifact does not start with the magic.
pub fn decode_binary(buffer: &Vec<u8>) -> (r: Result<Vec<u8>, CodecError>)
    ensures
        match unframed(buffer@) {
            Some(body) => r matches Ok(b) && b@ == body,
            None => r == Err::<Vec<u8>, CodecError>(CodecError::MagicMismatch),
        },
{
    let m = binary_magic();
    if buffer.len() < MAGIC_LEN {
        return Err(CodecError::MagicMismatch);
    }
    let mut i: usize = 0;
    while i < MAGIC_LEN
        invariant
            i <= MAGIC_LEN <= buffer@.len(),
            m@ == magic(),
            forall|j: int| 0 <= j < i ==> buffer@[j] == m@[j],
        decreases MAGIC_LEN - i,
    {
        if buffer[i] != m[i] {
            proof {
                assert(buffer@.subrange(0, MAGIC_LEN as int)[i as int] != magic()[i as int]);
            }
            return Err(CodecError::MagicMismatch);
        }
        i = i + 1;
    }
    assert(buffer@.subrange(0, MAGIC_LEN as int) =~= magic());
    let body = crate::text::slice_bytes(buffer, MAGIC_LEN, buffer.len());
    Ok(body)
}

/// Framing round trip: the body of the artifact made from a body is that body, and
/// the artifact starts with the magic.
pub proof fn lemma_frame_round_trip(body: Seq<u8>)
    ensures
        unframed(magic() + body) == Some(body),
        (magic() + body).subrange(0, MAGIC_LEN as int) == magic(),
{
    let a = magic() + body;
    assert(a.subrange(0, MAGIC_LEN as int) =~= magic());
    assert(a.subrange(MAGIC_LEN as int, a.len() as int) =~= body);
}

} // verus!
