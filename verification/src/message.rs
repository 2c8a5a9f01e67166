use vstd::prelude::*;

verus! {

/// The bytes of an all-ASCII character sequence, one byte per character.
pub open spec fn ascii_bytes(s: Seq<char>) -> Seq<u8> {
    Seq::new(s.len(), |i: int| s[i] as u8)
}

/// The ASCII decimal digits of `n`, most significant first, no leading zeros
/// (a single `0` for zero itself).
pub open spec fn dec_digits(n: nat) -> Seq<u8>
    decreases n,
{
    if n < 10 {
        seq![(48 + n) as u8]
    } else {
        dec_digits(n / 10).push((48 + n % 10) as u8)
    }
}

/// The single response line the server sends on a connection before closing
/// it: `Received <n> bytes of data`, where `n` is the connection's total
/// byte count.
pub open spec fn response_bytes(n: nat) -> Seq<u8> {
    ascii_bytes("Received "@) + dec_digits(n) + ascii_bytes(" bytes of data"@)
}

/// `s` with the order of its elements reversed.
pub open spec fn rev_seq(s: Seq<u8>) -> Seq<u8> {
    Seq::new(s.len(), |i: int| s[s.len() - 1 - i])
}

proof fn lemma_rev_push(s: Seq<u8>, d: u8)
    ensures
        rev_seq(s.push(d)) =~= seq![d] + rev_seq(s),
{
}

/// Append the bytes of an all-ASCII string.
fn append_ascii(v: &mut Vec<u8>, s: &str)
    requires
        vstd::string::is_ascii(s),
    ensures
        final(v)@ == old(v)@ + ascii_bytes(s@),
{
    proof {
        vstd::string::is_ascii_spec_bytes(s);
    }
    let bs = s.as_bytes();
    v.extend_from_slice(bs);
    proof {
        assert(v@ =~= old(v)@ + ascii_bytes(s@));
    }
}

/// Append the ASCII decimal rendering of `n`.
fn push_decimal(v: &mut Vec<u8>, n: u64)
    ensures
        final(v)@ == old(v)@ + dec_digits(n as nat),
{
    if n == 0 {
        v.push(48);
        proof {
            assert(dec_digits(0) =~= seq![48u8]);
            assert(v@ =~= old(v)@ + dec_digits(0));
        }
        return ;
    }
    let mut tmp: Vec<u8> = Vec::new();
    let mut m: u64 = n;
    proof {
        assert(dec_digits(n as nat) =~= dec_digits(n as nat) + rev_seq(tmp@));
    }
    while m > 0
        invariant
            m > 0 ==> dec_digits(n as nat) == dec_digits(m as nat) + rev_seq(tmp@),
            m == 0 ==> dec_digits(n as nat) == rev_seq(tmp@),
        decreases m,
    {
        let ghost tmp0 = tmp@;
        let ghost mi = m as nat;
        let d: u8 = (m % 10) as u8 + 48;
        tmp.push(d);
        m = m / 10;
        proof {
            lemma_rev_push(tmp0, d);
            assert(d == (48 + mi % 10) as u8);
            if mi < 10 {
                assert(dec_digits(mi) =~= seq![d]);
                assert(dec_digits(n as nat) =~= rev_seq(tmp@));
            } else {
                assert(dec_digits(mi) == dec_digits(mi / 10).push(d));
                assert(dec_digits(mi / 10) + rev_seq(tmp@) =~= dec_digits(mi) + rev_seq(tmp0));
            }
        }
    }
    let ghost digits = rev_seq(tmp@);
    let mut i: usize = tmp.len();
    proof {
        assert(v@ =~= old(v)@ + digits.take(0));
    }
    while i > 0
        invariant
            i <= tmp@.len(),
            digits == rev_seq(tmp@),
            dec_digits(n as nat) == digits,
            v@ == old(v)@ + digits.take(tmp@.len() - i),
        decreases i,
    {
        let b = tmp[i - 1];
        v.push(b);
        i = i - 1;
        proof {
            let k = (tmp@.len() - i - 1) as int;
            assert(digits[k] == tmp@[i as int]);
            assert(digits.take(k + 1) =~= digits.take(k).push(digits[k]));
        }
    }
    proof {
        assert(digits.take(tmp@.len() as int) =~= digits);
    }
}

/// Build the response line `Received <n> bytes of data` as bytes.
pub fn response_message(n: u64) -> (v: Vec<u8>)
    ensures
        v@ == response_bytes(n as nat),
{
    let mut v: Vec<u8> = Vec::new();
    proof {
        reveal_strlit("Received ");
        reveal_strlit(" bytes of data");
        assert(vstd::string::is_ascii("Received "));
        assert(vstd::string::is_ascii(" bytes of data"));
    }
    append_ascii(&mut v, "Received ");
    push_decimal(&mut v, n);
    append_ascii(&mut v, " bytes of data");
    proof {
        assert(v@ =~= response_bytes(n as nat));
    }
    v
}

} // verus!
