//! Hexadecimal rendering of byte strings: two digits per byte, in either
//! case, with an exact character-level specification.

use vstd::prelude::*;
use vstd::string::StringExecFns;

verus! {

/// The lower-case hexadecimal digit for a value in `[0, 15]`.
pub open spec fn hex_digit(n: int) -> char {
    if n == 0 {
        '0'
    } else if n == 1 {
        '1'
    } else if n == 2 {
        '2'
    } else if n == 3 {
        '3'
    } else if n == 4 {
        '4'
    } else if n == 5 {
        '5'
    } else if n == 6 {
        '6'
    } else if n == 7 {
        '7'
    } else if n == 8 {
        '8'
    } else if n == 9 {
        '9'
    } else if n == 10 {
        'a'
    } else if n == 11 {
        'b'
    } else if n == 12 {
        'c'
    } else if n == 13 {
        'd'
    } else if n == 14 {
        'e'
    } else {
        'f'
    }
}

/// The upper-case hexadecimal digit for a value in `[0, 15]`.
pub open spec fn hex_digit_upper(n: int) -> char {
    if n == 10 {
        'A'
    } else if n == 11 {
        'B'
    } else if n == 12 {
        'C'
    } else if n == 13 {
        'D'
    } else if n == 14 {
        'E'
    } else if n == 15 {
        'F'
    } else {
        hex_digit(n)
    }
}

/// The lower-case hex rendering of a byte string: two digits per byte.
pub open spec fn hex_of(bytes: Seq<u8>) -> Seq<char>
    decreases bytes.len(),
{
    if bytes.len() == 0 {
        Seq::empty()
    } else {
        hex_of(bytes.drop_last()) + seq![
            hex_digit(bytes.last() as int / 16),
            hex_digit(bytes.last() as int % 16),
        ]
    }
}

/// The upper-case hex rendering of a byte string.
pub open spec fn hex_upper_of(bytes: Seq<u8>) -> Seq<char>
    decreases bytes.len(),
{
    if bytes.len() == 0 {
        Seq::empty()
    } else {
        hex_upper_of(bytes.drop_last()) + seq![
            hex_digit_upper(bytes.last() as int / 16),
            hex_digit_upper(bytes.last() as int % 16),
        ]
    }
}

pub proof fn lemma_hex_index(bytes: Seq<u8>)
    ensures
        hex_of(bytes).len() == 2 * bytes.len(),
        hex_upper_of(bytes).len() == 2 * bytes.len(),
        forall|i: int| 0 <= i < bytes.len() ==> hex_of(bytes)[2 * i] == hex_digit(
            #[trigger] bytes[i] as int / 16,
        ) && hex_of(bytes)[2 * i + 1] == hex_digit(bytes[i] as int % 16) && hex_upper_of(bytes)[2
            * i] == hex_digit_upper(bytes[i] as int / 16) && hex_upper_of(bytes)[2 * i + 1]
            == hex_digit_upper(bytes[i] as int % 16),
    decreases bytes.len(),
{
    if bytes.len() > 0 {
        lemma_hex_index(bytes.drop_last());
        let d = bytes.drop_last();
        let n = bytes.len() as int;
        assert forall|i: int| 0 <= i < n implies hex_of(bytes)[2 * i] == hex_digit(
            #[trigger] bytes[i] as int / 16,
        ) && hex_of(bytes)[2 * i + 1] == hex_digit(bytes[i] as int % 16) && hex_upper_of(bytes)[2
            * i] == hex_digit_upper(bytes[i] as int / 16) && hex_upper_of(bytes)[2 * i + 1]
            == hex_digit_upper(bytes[i] as int % 16) by {
            if i < n - 1 {
                assert(bytes[i] == d[i]);
                assert(hex_of(bytes)[2 * i] == hex_of(d)[2 * i]);
                assert(hex_of(bytes)[2 * i + 1] == hex_of(d)[2 * i + 1]);
                assert(hex_upper_of(bytes)[2 * i] == hex_upper_of(d)[2 * i]);
                assert(hex_upper_of(bytes)[2 * i + 1] == hex_upper_of(d)[2 * i + 1]);
            } else {
                assert(bytes[i] == bytes.last());
            }
        }
    }
}

/// Appends the hex digit for `n` to `s`, in the requested case.
fn push_hex_digit(s: &mut String, n: u8, upper: bool)
    requires
        n < 16,
    ensures
        !upper ==> final(s)@ == old(s)@ + seq![hex_digit(n as int)],
        upper ==> final(s)@ == old(s)@ + seq![hex_digit_upper(n as int)],
{
    let d: &str = if upper {
        match n {
            0 => "0",
            1 => "1",
            2 => "2",
            3 => "3",
            4 => "4",
            5 => "5",
            6 => "6",
            7 => "7",
            8 => "8",
            9 => "9",
            10 => "A",
            11 => "B",
            12 => "C",
            13 => "D",
            14 => "E",
            _ => "F",
        }
    } else {
        match n {
            0 => "0",
            1 => "1",
            2 => "2",
            3 => "3",
            4 => "4",
            5 => "5",
            6 => "6",
            7 => "7",
            8 => "8",
            9 => "9",
            10 => "a",
            11 => "b",
            12 => "c",
            13 => "d",
            14 => "e",
            _ => "f",
        }
    };
    proof {
        reveal_strlit("0");
        reveal_strlit("1");
        reveal_strlit("2");
        reveal_strlit("3");
        reveal_strlit("4");
        reveal_strlit("5");
        reveal_strlit("6");
        reveal_strlit("7");
        reveal_strlit("8");
        reveal_strlit("9");
        reveal_strlit("a");
        reveal_strlit("b");
        reveal_strlit("c");
        reveal_strlit("d");
        reveal_strlit("e");
        reveal_strlit("f");
        reveal_strlit("A");
        reveal_strlit("B");
        reveal_strlit("C");
        reveal_strlit("D");
        reveal_strlit("E");
        reveal_strlit("F");
    }
    s.append(d);
}

/// Renders the first `nchars` characters of the hex form of `bytes`.
pub(crate) fn hex_prefix(bytes: &[u8], nchars: usize, upper: bool) -> (r: String)
    requires
        nchars <= 2 * bytes@.len(),
    ensures
        !upper ==> r@ == hex_of(bytes@).take(nchars as int),
        upper ==> r@ == hex_upper_of(bytes@).take(nchars as int),
{
    proof {
        lemma_hex_index(bytes@);
    }
    let mut s = String::new();
    let mut k: usize = 0;
    proof {
        if upper {
            assert(s@ =~= hex_upper_of(bytes@).take(0));
        } else {
            assert(s@ =~= hex_of(bytes@).take(0));
        }
    }
    while k < nchars
        invariant
            k <= nchars <= 2 * bytes@.len(),
            !upper ==> s@ == hex_of(bytes@).take(k as int),
            upper ==> s@ == hex_upper_of(bytes@).take(k as int),
        decreases nchars - k,
    {
        let b = bytes[k / 2];
        let nib: u8 = if k % 2 == 0 {
            b >> 4
        } else {
            b & 0x0f
        };
        proof {
            assert(b >> 4 == b / 16 && b & 0x0f == b % 16 && b / 16 < 16) by (bit_vector);
            lemma_hex_index(bytes@);
            assert(0 <= k as int / 2 < bytes@.len());
        }
        push_hex_digit(&mut s, nib, upper);
        proof {
            let h = if upper {
                hex_upper_of(bytes@)
            } else {
                hex_of(bytes@)
            };
            assert((k as int) / 2 * 2 + (k as int) % 2 == k as int) by (nonlinear_arith);
            assert(h.take(k + 1) =~= h.take(k as int).push(h[k as int]));
        }
        k = k + 1;
    }
    s
}

/// The full lower-case hex rendering of a byte string.
pub fn bytes_to_hex_str(bytes: &[u8]) -> (r: String)
    requires
        2 * bytes@.len() <= usize::MAX,
    ensures
        r@ == hex_of(bytes@),
{
    proof {
        lemma_hex_index(bytes@);
    }
    let r = hex_prefix(bytes, 2 * bytes.len(), false);
    proof {
        assert(hex_of(bytes@).take(2 * bytes@.len() as int) =~= hex_of(bytes@));
    }
    r
}

/// The full lower-case hex rendering of a byte string.
pub fn byte2hex(bytes: &[u8]) -> (r: String)
    requires
        2 * bytes@.len() <= usize::MAX,
    ensures
        r@ == hex_of(bytes@),
{
    bytes_to_hex_str(bytes)
}

/// The full lower-case hex rendering of a byte string.
pub fn bytes_to_hex_string(bytes: &[u8]) -> (r: String)
    requires
        2 * bytes@.len() <= usize::MAX,
    ensures
        r@ == hex_of(bytes@),
{
    bytes_to_hex_str(bytes)
}

} // verus!
