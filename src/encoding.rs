use vstd::prelude::*;

verus! {

/// The lowercase hexadecimal digit of a value below 16.
pub open spec fn hex_digit(v: int) -> char {
    seq!['0', '1', '2', '3', '4', '5', '6', '7', '8', '9', 'a', 'b', 'c', 'd', 'e', 'f'][v]
}

/// Two lowercase hexadecimal digits per byte, the high one first.
pub open spec fn hex_of(b: Seq<u8>) -> Seq<char>
    decreases b.len(),
{
    if b.len() == 0 {
        Seq::empty()
    } else {
        hex_of(b.drop_last()) + seq![hex_digit(b.last() as int / 16), hex_digit(b.last() as int % 16)]
    }
}

/// Hex text is twice as long as its bytes.
pub proof fn lemma_hex_len(b: Seq<u8>)
    ensures
        hex_of(b).len() == 2 * b.len(),
    decreases b.len(),
{
    if b.len() > 0 {
        lemma_hex_len(b.drop_last());
    }
}

/// Relies on hex::encode: two lowercase digits for each byte, in order.
#[verifier::external_body]
pub(crate) fn hex_encode(b: &Vec<u8>) -> (r: String)
    ensures
        r@ == hex_of(b@),
{
    hex::encode(b)
}

/// The decimal form of an integer, with a leading '-' when it is negative.
pub open spec fn decimal_of(n: int) -> Seq<char>
    decreases (if n < 0 { -n + 1 } else { n }),
{
    if n < 0 {
        seq!['-'] + decimal_of(-n)
    } else if n < 10 {
        seq![hex_digit(n)]
    } else {
        decimal_of(n / 10).push(hex_digit(n % 10))
    }
}

/// The decimal digits of `n`.
fn digits(n: u32) -> (r: String)
    ensures
        r@ == decimal_of(n as int),
    decreases n,
{
    let table = "0123456789";
    proof {
        reveal_strlit("0123456789");
    }
    let d = (n % 10) as usize;
    let digit = table.substring_char(d, d + 1);
    proof {
        assert(digit@ =~= seq![hex_digit(n as int % 10)]) by {
            assert(digit@.len() == 1);
            assert(digit@[0] == table@[d as int]);
            assert(d == 0 || d == 1 || d == 2 || d == 3 || d == 4 || d == 5 || d == 6 || d == 7
                || d == 8 || d == 9);
        }
    }
    if n < 10 {
        digit.to_string()
    } else {
        let mut r = digits(n / 10);
        r.append(digit);
        proof {
            assert(r@ =~= decimal_of(n as int / 10).push(hex_digit(n as int % 10)));
        }
        r
    }
}

/// The decimal form of `n`, with a leading '-' when it is negative.
pub fn decimal(n: i32) -> (r: String)
    ensures
        r@ == decimal_of(n as int),
{
    if n < 0 {
        let minus = "-";
        proof {
            reveal_strlit("-");
        }
        let mut r = minus.to_string();
        let magnitude = (-(n as i64)) as u32;
        let rest = digits(magnitude);
        r.append(rest.as_str());
        proof {
            assert(r@ =~= seq!['-'] + decimal_of(-(n as int)));
        }
        r
    } else {
        digits(n as u32)
    }
}

} // verus!
