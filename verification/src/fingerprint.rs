//! Node identifiers: a deterministic, non-cryptographic 64-bit fingerprint of
//! an absolute path, rendered as lowercase hexadecimal. Equal paths always
//! yield equal identifiers, so repeated scans of an unchanged tree are
//! reproducible.

use vstd::prelude::*;

verus! {

pub const FNV_OFFSET: u64 = 0xcbf29ce484222325;

pub const FNV_PRIME: u64 = 0x100000001b3;

/// One step of the FNV-1a fold: mix a character into the running hash.
pub open spec fn fnv_step(h: u64, c: char) -> u64 {
    vstd::wrapping::u64_specs::wrapping_mul(h ^ (c as u64), FNV_PRIME)
}

/// FNV-1a hash of a character sequence.
pub open spec fn spec_fingerprint(s: Seq<char>) -> u64
    decreases s.len(),
{
    if s.len() == 0 {
        FNV_OFFSET
    } else {
        fnv_step(spec_fingerprint(s.drop_last()), s.last())
    }
}

pub open spec fn hex_digit(d: int) -> char {
    if d == 0 {
        '0'
    } else if d == 1 {
        '1'
    } else if d == 2 {
        '2'
    } else if d == 3 {
        '3'
    } else if d == 4 {
        '4'
    } else if d == 5 {
        '5'
    } else if d == 6 {
        '6'
    } else if d == 7 {
        '7'
    } else if d == 8 {
        '8'
    } else if d == 9 {
        '9'
    } else if d == 10 {
        'a'
    } else if d == 11 {
        'b'
    } else if d == 12 {
        'c'
    } else if d == 13 {
        'd'
    } else if d == 14 {
        'e'
    } else {
        'f'
    }
}

/// Hexadecimal digits of a positive number, most significant first; empty for 0.
pub open spec fn spec_hex_pos(n: int) -> Seq<char>
    decreases n,
{
    if n <= 0 {
        Seq::empty()
    } else {
        spec_hex_pos(n / 16).push(hex_digit(n % 16))
    }
}

/// Lowercase hexadecimal rendering of a number, without leading zeros.
pub open spec fn spec_hex(n: int) -> Seq<char> {
    if n == 0 {
        seq!['0']
    } else {
        spec_hex_pos(n)
    }
}

/// The identifier of a path: the hex rendering of its fingerprint.
pub open spec fn spec_path_id(p: Seq<char>) -> Seq<char> {
    spec_hex(spec_fingerprint(p) as int)
}

/// FNV-1a hash of a string.
pub fn fingerprint_str(s: &str) -> (h: u64)
    ensures
        h == spec_fingerprint(s@),
{
    let n = s.unicode_len();
    let mut h: u64 = FNV_OFFSET;
    let mut i: usize = 0;
    while i < n
        invariant
            0 <= i <= n,
            n == s@.len(),
            h == spec_fingerprint(s@.subrange(0, i as int)),
        decreases n - i,
    {
        let c = s.get_char(i);
        h = (h ^ (c as u64)).wrapping_mul(FNV_PRIME);
        proof {
            let pre = s@.subrange(0, (i + 1) as int);
            assert(pre.drop_last() =~= s@.subrange(0, i as int));
            assert(pre.last() == s@[i as int]);
        }
        i = i + 1;
    }
    proof {
        assert(s@.subrange(0, n as int) =~= s@);
    }
    h
}

/// Append one hexadecimal digit to the string.
fn push_hex_digit(s: &mut String, d: u64)
    requires
        d < 16,
    ensures
        final(s)@ == old(s)@.push(hex_digit(d as int)),
{
    if d == 0 {
        s.append("0");
        proof {
            reveal_strlit("0");
            assert(final(s)@ =~= old(s)@.push('0'));
        }
    } else if d == 1 {
        s.append("1");
        proof {
            reveal_strlit("1");
            assert(final(s)@ =~= old(s)@.push('1'));
        }
    } else if d == 2 {
        s.append("2");
        proof {
            reveal_strlit("2");
            assert(final(s)@ =~= old(s)@.push('2'));
        }
    } else if d == 3 {
        s.append("3");
        proof {
            reveal_strlit("3");
            assert(final(s)@ =~= old(s)@.push('3'));
        }
    } else if d == 4 {
        s.append("4");
        proof {
            reveal_strlit("4");
            assert(final(s)@ =~= old(s)@.push('4'));
        }
    } else if d == 5 {
        s.append("5");
        proof {
            reveal_strlit("5");
            assert(final(s)@ =~= old(s)@.push('5'));
        }
    } else if d == 6 {
        s.append("6");
        proof {
            reveal_strlit("6");
            assert(final(s)@ =~= old(s)@.push('6'));
        }
    } else if d == 7 {
        s.append("7");
        proof {
            reveal_strlit("7");
            assert(final(s)@ =~= old(s)@.push('7'));
        }
    } else if d == 8 {
        s.append("8");
        proof {
            reveal_strlit("8");
            assert(final(s)@ =~= old(s)@.push('8'));
        }
    } else if d == 9 {
        s.append("9");
        proof {
            reveal_strlit("9");
            assert(final(s)@ =~= old(s)@.push('9'));
        }
    } else if d == 10 {
        s.append("a");
        proof {
            reveal_strlit("a");
            assert(final(s)@ =~= old(s)@.push('a'));
        }
    } else if d == 11 {
        s.append("b");
        proof {
            reveal_strlit("b");
            assert(final(s)@ =~= old(s)@.push('b'));
        }
    } else if d == 12 {
        s.append("c");
        proof {
            reveal_strlit("c");
            assert(final(s)@ =~= old(s)@.push('c'));
        }
    } else if d == 13 {
        s.append("d");
        proof {
            reveal_strlit("d");
            assert(final(s)@ =~= old(s)@.push('d'));
        }
    } else if d == 14 {
        s.append("e");
        proof {
            reveal_strlit("e");
            assert(final(s)@ =~= old(s)@.push('e'));
        }
    } else {
        s.append("f");
        proof {
            reveal_strlit("f");
            assert(final(s)@ =~= old(s)@.push('f'));
        }
    }
}

/// Append the hex digits of a positive number, most significant first.
fn append_hex_pos(n: u64, s: &mut String)
    ensures
        final(s)@ == old(s)@ + spec_hex_pos(n as int),
    decreases n,
{
    if n == 0 {
        proof {
            assert(old(s)@ + spec_hex_pos(0) =~= old(s)@);
        }
        return ;
    }
    append_hex_pos(n / 16, s);
    push_hex_digit(s, n % 16);
    proof {
        assert((old(s)@ + spec_hex_pos(n as int / 16)).push(hex_digit(n as int % 16)) =~= old(s)@
            + spec_hex_pos(n as int));
    }
}

/// Lowercase hexadecimal rendering of a 64-bit number.
pub fn hex_of_u64(n: u64) -> (r: String)
    ensures
        r@ == spec_hex(n as int),
{
    let mut s = String::new();
    if n == 0 {
        s.append("0");
        proof {
            reveal_strlit("0");
            assert(s@ =~= seq!['0']);
        }
    } else {
        append_hex_pos(n, &mut s);
        proof {
            assert(s@ =~= spec_hex_pos(n as int));
        }
    }
    s
}

/// The identifier generated for a path.
pub fn path_id(path: &str) -> (r: String)
    ensures
        r@ == spec_path_id(path@),
{
    let h = fingerprint_str(path);
    hex_of_u64(h)
}

} // verus!
