use crate::error::DecodeError;
use vstd::prelude::*;
use vstd::slice::slice_subrange;

verus! {

/// The character that writes the digit `d`.
pub open spec fn digit_char(d: int) -> char
    recommends
        0 <= d < 10,
{
    seq!['0', '1', '2', '3', '4', '5', '6', '7', '8', '9'][d]
}

/// The decimal numeral of `n`, without leading zeros.
pub open spec fn decimal(n: nat) -> Seq<char>
    decreases n,
{
    if n < 10 {
        seq![digit_char(n as int)]
    } else {
        decimal(n / 10).push(digit_char((n % 10) as int))
    }
}

/// The first four bytes of `b` in decimal, with a dot between neighbours.
pub open spec fn dotted_quad(b: Seq<u8>) -> Seq<char>
    recommends
        b.len() >= 4,
{
    decimal(b[0] as nat) + seq!['.'] + decimal(b[1] as nat) + seq!['.'] + decimal(b[2] as nat)
        + seq!['.'] + decimal(b[3] as nat)
}

/// The text that writes one decimal digit.
fn digit_str(d: u8) -> (s: &'static str)
    requires
        d < 10,
    ensures
        s@ == seq![digit_char(d as int)],
{
    proof {
        reveal_strlit("0");
        reveal_strlit("1");
        reveal_strlit("2");
        reveal_strlit("3");
        reveal_strlit("4");
        reveal_strlit("5");
        reveal_strlit("6");
        reveal_strlit("7");
        reveal_strlit("8");
        reveal_strlit("9");
    }
    let s = match d {
        0 => "0",
        1 => "1",
        2 => "2",
        3 => "3",
        4 => "4",
        5 => "5",
        6 => "6",
        7 => "7",
        8 => "8",
        _ => "9",
    };
    assert(s@ =~= seq![digit_char(d as int)]);
    s
}

/// Appends the decimal numeral of `n` to `out`.
fn push_decimal(out: &mut String, n: u8)
    ensures
        final(out)@ == old(out)@ + decimal(n as nat),
{
    proof {
        reveal_with_fuel(decimal, 3);
    }
    if n >= 100 {
        out.append(digit_str(n / 100));
    }
    if n >= 10 {
        out.append(digit_str((n / 10) % 10));
    }
    out.append(digit_str(n % 10));
    assert(out@ =~= old(out)@ + decimal(n as nat));
}

/// The payload of an address record: an IPv4 address in dotted decimal.
#[derive(Debug, PartialEq, Eq)]
pub struct A {
    pub ip: String,
}

impl View for A {
    type V = Seq<char>;

    open spec fn view(&self) -> Seq<char> {
        self.ip@
    }
}

impl A {
    /// Renders the four bytes of `buf` that begin at `start_at`. Fails when
    /// `buf` does not reach that far.
    pub fn from_buf(buf: &[u8], start_at: usize) -> (r: Result<Self, DecodeError>)
        ensures
            start_at + 4 <= buf@.len() ==> r is Ok && r->Ok_0@ == dotted_quad(
                buf@.subrange(start_at as int, start_at + 4),
            ),
            start_at + 4 > buf@.len() ==> r == Err::<A, DecodeError>(DecodeError::BufferTooShort),
    {
        if start_at > buf.len() || buf.len() - start_at < 4 {
            return Err(DecodeError::BufferTooShort);
        }
        Ok(Self { ip: Self::read_ip(slice_subrange(buf, start_at, start_at + 4)) })
    }

    /// Writes the first four bytes of `buf` in dotted decimal.
    fn read_ip(buf: &[u8]) -> (ip: String)
        requires
            buf@.len() >= 4,
        ensures
            ip@ == dotted_quad(buf@),
    {
        let mut ip = String::new();
        proof {
            reveal_strlit(".");
        }
        push_decimal(&mut ip, buf[0]);
        ip.append(".");
        push_decimal(&mut ip, buf[1]);
        ip.append(".");
        push_decimal(&mut ip, buf[2]);
        ip.append(".");
        push_decimal(&mut ip, buf[3]);
        assert(ip@ =~= dotted_quad(buf@));
        ip
    }
}

} // verus!
