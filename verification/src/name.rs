use crate::buf_reader::{spec_be_u16, BufReader};
use crate::error::{same_or_short, DecodeError};
use crate::parser::{bit_accessor, spec_bit};
use vstd::prelude::*;
use vstd::utf8::{decode_utf8, encode_utf8, encode_utf8_decode_utf8, valid_utf8};

verus! {

/// Whether a length byte opens a compression pointer: its two highest bits
/// are both set.
pub open spec fn is_pointer(byte: u8) -> bool {
    spec_bit(byte, 0) == 1 && spec_bit(byte, 1) == 1
}

/// The offset that a compression pointer names: the low 14 bits of its two
/// bytes read in network order.
pub open spec fn pointer_target(hi: u8, lo: u8) -> int {
    (spec_be_u16(seq![hi, lo]) & 0x3FFF) as int
}

/// What walking the labels of a name found.
pub struct NameWalk {
    /// The labels in the order met, each as text.
    pub labels: Seq<Seq<char>>,
    /// The offset just past the zero byte that ended the name.
    pub end: int,
    /// Whether a compression pointer was followed on the way.
    pub jumped: bool,
}

/// Walks the labels of the name at `pos`. A pointer is followed only to an
/// offset below `limit`, which then becomes the new limit, so that every jump
/// lands strictly before the start of the run of labels it was taken from.
pub open spec fn walk_labels(bytes: Seq<u8>, pos: int, limit: int) -> Result<NameWalk, DecodeError>
    decreases limit, bytes.len() - pos,
{
    if pos < 0 || pos >= bytes.len() {
        Err(DecodeError::BufferTooShort)
    } else if bytes[pos] == 0 {
        Ok(NameWalk { labels: seq![], end: pos + 1, jumped: false })
    } else if is_pointer(bytes[pos]) {
        if pos + 1 >= bytes.len() {
            Err(DecodeError::BufferTooShort)
        } else {
            let target = pointer_target(bytes[pos], bytes[pos + 1]);
            if 0 <= target < limit {
                match walk_labels(bytes, target, target) {
                    Ok(rest) => Ok(NameWalk { labels: rest.labels, end: rest.end, jumped: true }),
                    Err(e) => Err(e),
                }
            } else {
                Err(DecodeError::CompressionLoop)
            }
        }
    } else {
        let after = pos + 1 + bytes[pos];
        if after > bytes.len() {
            Err(DecodeError::BufferTooShort)
        } else {
            let label = bytes.subrange(pos + 1, after);
            if !valid_utf8(label) {
                Err(DecodeError::MalformedLabel)
            } else {
                match walk_labels(bytes, after, limit) {
                    Ok(rest) => Ok(
                        NameWalk {
                            labels: seq![decode_utf8(label)] + rest.labels,
                            end: rest.end,
                            jumped: rest.jumped,
                        },
                    ),
                    Err(e) => Err(e),
                }
            }
        }
    }
}

/// The labels joined into one text with a dot between neighbours.
pub open spec fn join_dots(labels: Seq<Seq<char>>) -> Seq<char>
    decreases labels.len(),
{
    if labels.len() == 0 {
        seq![]
    } else if labels.len() == 1 {
        labels[0]
    } else {
        join_dots(labels.drop_last()) + seq!['.'] + labels.last()
    }
}

/// The name at `pos` and the offset at which whatever follows it begins: two
/// bytes past `pos` when a pointer was followed, else just past the zero byte
/// that ends the name.
pub open spec fn name_at(bytes: Seq<u8>, pos: int) -> Result<(Seq<char>, int), DecodeError> {
    match walk_labels(bytes, pos, pos) {
        Ok(walk) => Ok(
            (
                join_dots(walk.labels),
                if walk.jumped {
                    pos + 2
                } else {
                    walk.end
                },
            ),
        ),
        Err(e) => Err(e),
    }
}

/// A walk that has already met `labels`, and followed a pointer if `jumped`,
/// and goes on as `rest` says.
spec fn continue_walk(
    labels: Seq<Seq<char>>,
    jumped: bool,
    rest: Result<NameWalk, DecodeError>,
) -> Result<NameWalk, DecodeError> {
    match rest {
        Ok(walk) => Ok(
            NameWalk {
                labels: labels + walk.labels,
                end: walk.end,
                jumped: jumped || walk.jumped,
            },
        ),
        Err(e) => Err(e),
    }
}

/// The offset of the first compression pointer that the name at `pos` holds,
/// if well-formed labels lead up to one.
pub open spec fn first_pointer(bytes: Seq<u8>, pos: int) -> Option<int>
    decreases bytes.len() - pos,
{
    if pos < 0 || pos >= bytes.len() || bytes[pos] == 0 {
        None
    } else if is_pointer(bytes[pos]) {
        if pos + 1 < bytes.len() {
            Some(pos)
        } else {
            None
        }
    } else {
        let after = pos + 1 + bytes[pos];
        if after > bytes.len() || !valid_utf8(bytes.subrange(pos + 1, after)) {
            None
        } else {
            first_pointer(bytes, after)
        }
    }
}

/// A walk that reaches a pointer whose target is not below the limit ends
/// there, in `CompressionLoop`.
proof fn lemma_walk_rejects_pointer(bytes: Seq<u8>, pos: int, limit: int)
    requires
        first_pointer(bytes, pos) is Some,
        ({
            let at = first_pointer(bytes, pos)->Some_0;
            pointer_target(bytes[at], bytes[at + 1]) >= limit
        }),
    ensures
        walk_labels(bytes, pos, limit) == Err::<NameWalk, DecodeError>(
            DecodeError::CompressionLoop,
        ),
    decreases bytes.len() - pos,
{
    if !is_pointer(bytes[pos]) {
        lemma_walk_rejects_pointer(bytes, pos + 1 + bytes[pos], limit);
    }
}

/// A name is never decoded through a pointer that fails to point backwards:
/// where the first pointer of the name at `pos` names an offset at or after
/// `pos`, decoding the name fails with `CompressionLoop`.
pub proof fn lemma_forward_pointer_is_loop(bytes: Seq<u8>, pos: int)
    requires
        first_pointer(bytes, pos) is Some,
        ({
            let at = first_pointer(bytes, pos)->Some_0;
            pointer_target(bytes[at], bytes[at + 1]) >= pos
        }),
    ensures
        name_at(bytes, pos) == Err::<(Seq<char>, int), DecodeError>(DecodeError::CompressionLoop),
{
    lemma_walk_rejects_pointer(bytes, pos, pos);
}

/// A name that begins with a pointer is the name at the pointer's target, and
/// takes up the two bytes of the pointer, however long the name at the target
/// is.
pub proof fn lemma_pointer_names_its_target(bytes: Seq<u8>, pos: int)
    requires
        0 <= pos && pos + 1 < bytes.len(),
        is_pointer(bytes[pos]),
        name_at(bytes, pos) is Ok,
    ensures
        ({
            let target = pointer_target(bytes[pos], bytes[pos + 1]);
            &&& 0 <= target < pos
            &&& name_at(bytes, target) is Ok
            &&& name_at(bytes, pos)->Ok_0.0 == name_at(bytes, target)->Ok_0.0
            &&& name_at(bytes, pos)->Ok_0.1 == pos + 2
        }),
{
    assert(bytes[pos] != 0) by {
        let b = bytes[pos];
        assert(spec_bit(b, 0) == 1 ==> b != 0) by (bit_vector);
    }
}

/// Decoding a name reads only what the buffer holds: the offset at which the
/// next field begins lies after the start of the name and within the buffer.
pub proof fn lemma_name_within_buffer(bytes: Seq<u8>, pos: int)
    requires
        name_at(bytes, pos) is Ok,
    ensures
        pos < name_at(bytes, pos)->Ok_0.1 <= bytes.len(),
{
    lemma_walk_within_buffer(bytes, pos, pos);
}

/// A walk without a jump ends after its start and within the buffer; a walk
/// with a jump passed a pointer that lies wholly within the buffer.
proof fn lemma_walk_within_buffer(bytes: Seq<u8>, pos: int, limit: int)
    requires
        walk_labels(bytes, pos, limit) is Ok,
    ensures
        ({
            let walk = walk_labels(bytes, pos, limit)->Ok_0;
            if walk.jumped {
                0 <= pos && pos + 2 <= bytes.len()
            } else {
                pos < walk.end <= bytes.len()
            }
        }),
    decreases limit, bytes.len() - pos,
{
    if bytes[pos] != 0 && !is_pointer(bytes[pos]) {
        lemma_walk_within_buffer(bytes, pos + 1 + bytes[pos], limit);
    }
}

/// Walking the labels in the first `n` bytes of a buffer finds what walking
/// them in all of it finds, unless those bytes end too soon.
proof fn lemma_walk_truncated(bytes: Seq<u8>, n: int, pos: int, limit: int)
    requires
        0 <= n <= bytes.len(),
    ensures
        same_or_short(walk_labels(bytes.take(n), pos, limit), walk_labels(bytes, pos, limit)),
    decreases limit, bytes.len() - pos,
{
    let cut = bytes.take(n);
    if 0 <= pos < n && bytes[pos] != 0 {
        if is_pointer(bytes[pos]) {
            if pos + 1 < n {
                let target = pointer_target(bytes[pos], bytes[pos + 1]);
                if 0 <= target < limit {
                    lemma_walk_truncated(bytes, n, target, target);
                }
            }
        } else {
            let after = pos + 1 + bytes[pos];
            if after <= n {
                assert(cut.subrange(pos + 1, after) == bytes.subrange(pos + 1, after));
                lemma_walk_truncated(bytes, n, after, limit);
            }
        }
    }
}

/// Cutting a buffer short never changes a name: decoding the name at `pos`
/// in the first `n` bytes gives what decoding it in the whole buffer gives,
/// or fails with `BufferTooShort`.
pub proof fn lemma_name_truncated(bytes: Seq<u8>, n: int, pos: int)
    requires
        0 <= n <= bytes.len(),
    ensures
        same_or_short(name_at(bytes.take(n), pos), name_at(bytes, pos)),
{
    lemma_walk_truncated(bytes, n, pos, pos);
}

/// Calls `core::str::from_utf8`, which checks that a byte slice is
/// well-formed UTF-8 and, if so, hands the same bytes back as text. The
/// contract claims that it accepts exactly the well-formed slices and that
/// the text it returns encodes to the bytes given.
#[verifier::external_body]
fn utf8_text<'a>(bytes: &'a [u8]) -> (text: Option<&'a str>)
    ensures
        text is Some <==> valid_utf8(bytes@),
        text matches Some(s) ==> encode_utf8(s@) == bytes@,
{
    core::str::from_utf8(bytes).ok()
}

/// Decodes the domain name at the cursor: the labels up to the zero byte
/// that ends the name, following compression pointers, joined with dots.
///
/// On success the cursor stands where the next field begins: two bytes past
/// the start when a pointer was followed, else just past the zero byte. On
/// failure the cursor is back where it was.
pub fn read_name(buf: &mut BufReader) -> (r: Result<String, DecodeError>)
    ensures
        final(buf).bytes() == old(buf).bytes(),
        match name_at(old(buf).bytes(), old(buf).pos as int) {
            Ok((name, next)) => r is Ok && r->Ok_0@ == name && final(buf).pos == next,
            Err(e) => r is Err && r->Err_0 == e && final(buf).pos == old(buf).pos,
        },
{
    let started_at = buf.position();
    let ghost bytes = buf.bytes();
    let mut name = String::new();
    let mut jumped = false;
    let mut first = true;
    let mut limit: usize = started_at;
    let ghost mut labels: Seq<Seq<char>> = seq![];
    loop
        invariant_except_break
            walk_labels(bytes, started_at as int, started_at as int) == continue_walk(
                labels,
                jumped,
                walk_labels(bytes, buf.pos as int, limit as int),
            ),
        invariant
            buf.bytes() == bytes,
            bytes == old(buf).bytes(),
            started_at == old(buf).pos,
            limit <= started_at,
            jumped ==> started_at + 2 <= bytes.len(),
            !jumped ==> started_at <= buf.pos,
            first == (labels.len() == 0),
            name@ == join_dots(labels),
        ensures
            walk_labels(bytes, started_at as int, started_at as int) == Ok::<
                NameWalk,
                DecodeError,
            >(NameWalk { labels, end: buf.pos as int, jumped }),
        decreases limit, bytes.len() - buf.pos,
    {
        let curr_byte = match buf.read(1) {
            Ok(s) => s[0],
            Err(e) => {
                buf.goto(started_at);
                return Err(e);
            },
        };
        if curr_byte == 0 {
            assert(labels + seq![] == labels);
            break ;
        }
        if bit_accessor(&curr_byte, 0) == 1 && bit_accessor(&curr_byte, 1) == 1 {
            let low = match buf.read(1) {
                Ok(s) => s[0],
                Err(e) => {
                    buf.goto(started_at);
                    return Err(e);
                },
            };
            let value: u16 = (curr_byte as u16) * 256 + (low as u16);
            let target: usize = (value & 0x3FFF) as usize;
            if target >= limit {
                buf.goto(started_at);
                return Err(DecodeError::CompressionLoop);
            }
            buf.goto(target);
            limit = target;
            jumped = true;
        } else {
            let label_len: usize = curr_byte as usize;
            let label_bytes = match buf.read(label_len) {
                Ok(s) => s,
                Err(e) => {
                    buf.goto(started_at);
                    return Err(e);
                },
            };
            let label = match utf8_text(label_bytes) {
                Some(s) => s,
                None => {
                    buf.goto(started_at);
                    return Err(DecodeError::MalformedLabel);
                },
            };
            proof {
                encode_utf8_decode_utf8(label@);
                reveal_strlit(".");
                let rest = walk_labels(bytes, buf.pos as int, limit as int);
                if rest is Ok {
                    assert(labels + (seq![label@] + rest->Ok_0.labels) == labels.push(label@)
                        + rest->Ok_0.labels);
                }
                assert(labels.push(label@).drop_last() == labels);
            }
            if !first {
                name.append(".");
            }
            name.append(label);
            first = false;
            proof {
                labels = labels.push(label@);
            }
        }
    }
    if jumped {
        assert(bytes.len() == vstd::slice::spec_slice_len(buf.buf));
        buf.goto(started_at + 2);
    }
    Ok(name)
}

} // verus!
