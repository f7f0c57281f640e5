//! Configuration values read at startup: the default response TTL, given
//! as decimal text in the environment. The text-to-number step is the one
//! piece of logic here; reading the environment stays with the caller.

use vstd::prelude::*;

verus! {

/// The TTL answered when no configuration is present.
pub const DEFAULT_TTL: u32 = 60;

/// Every byte of `s` is a decimal digit.
pub open spec fn all_digits(s: Seq<u8>) -> bool {
    forall|i: int| 0 <= i < s.len() ==> 48 <= #[trigger] s[i] <= 57
}

/// The number the digit string `s` denotes in base ten.
pub open spec fn dec_val(s: Seq<u8>) -> int
    decreases s.len(),
{
    if s.len() == 0 {
        0
    } else {
        dec_val(s.take(s.len() - 1)) * 10 + (s.last() - 48)
    }
}

proof fn lemma_dec_val_nonneg(s: Seq<u8>)
    requires
        all_digits(s),
    ensures
        dec_val(s) >= 0,
    decreases s.len(),
{
    if s.len() > 0 {
        assert(all_digits(s.take(s.len() - 1)));
        lemma_dec_val_nonneg(s.take(s.len() - 1));
    }
}

proof fn lemma_dec_val_grows(s: Seq<u8>, i: int)
    requires
        all_digits(s),
        0 <= i <= s.len(),
    ensures
        dec_val(s.take(i)) <= dec_val(s),
    decreases s.len() - i,
{
    if i < s.len() {
        lemma_dec_val_grows(s, i + 1);
        assert(s.take(i + 1).take(i) =~= s.take(i));
        assert(all_digits(s.take(i)));
        lemma_dec_val_nonneg(s.take(i));
        assert(dec_val(s.take(i + 1)) == dec_val(s.take(i)) * 10 + (s.take(i + 1).last() - 48));
    } else {
        assert(s.take(i) =~= s);
    }
}

/// The digits the TTL text denotes: everything after one optional
/// leading plus sign.
pub open spec fn ttl_digits(s: Seq<u8>) -> Seq<u8> {
    if s.len() > 0 && s[0] == 43 {
        s.skip(1)
    } else {
        s
    }
}

fn parse_decimal(s: &Vec<u8>) -> (r: Option<u32>)
    ensures
        r is Some <==> s@.len() > 0 && all_digits(s@) && dec_val(s@) <= u32::MAX,
        r matches Some(v) ==> v == dec_val(s@),
{
    if s.len() == 0 {
        return None;
    }
    let mut acc: u32 = 0;
    let mut i: usize = 0;
    proof {
        assert(s@.take(0) =~= Seq::<u8>::empty());
    }
    while i < s.len()
        invariant
            i <= s@.len(),
            all_digits(s@.take(i as int)),
            acc == dec_val(s@.take(i as int)),
        decreases s.len() - i,
    {
        let c = s[i];
        if c < 48 || c > 57 {
            return None;
        }
        let d = (c - 48) as u32;
        if acc > (u32::MAX - d) / 10 {
            proof {
                vstd::arithmetic::div_mod::lemma_fundamental_div_mod(
                    (u32::MAX - d) as int,
                    10,
                );
                assert(s@.take(i as int + 1).take(i as int) =~= s@.take(i as int));
                assert(dec_val(s@.take(i as int + 1)) > u32::MAX);
                if all_digits(s@) {
                    lemma_dec_val_grows(s@, i as int + 1);
                }
            }
            return None;
        }
        proof {
            vstd::arithmetic::div_mod::lemma_fundamental_div_mod((u32::MAX - d) as int, 10);
            vstd::arithmetic::mul::lemma_mul_inequality(
                acc as int,
                ((u32::MAX - d) / 10) as int,
                10,
            );
            assert(s@.take(i as int + 1).take(i as int) =~= s@.take(i as int));
        }
        acc = acc * 10 + d;
        i += 1;
    }
    proof {
        assert(s@.take(s@.len() as int) =~= s@);
    }
    Some(acc)
}

/// Reads a TTL from decimal text: the denoted number when the text —
/// after one optional leading plus sign — is nonempty, all digits, and in
/// range; nothing otherwise.
pub fn parse_ttl(s: &Vec<u8>) -> (r: Option<u32>)
    ensures
        r is Some <==> ttl_digits(s@).len() > 0 && all_digits(ttl_digits(s@))
            && dec_val(ttl_digits(s@)) <= u32::MAX,
        r matches Some(v) ==> v == dec_val(ttl_digits(s@)),
{
    if s.len() > 0 && s[0] == 43 {
        let mut rest: Vec<u8> = Vec::new();
        let mut i: usize = 1;
        while i < s.len()
            invariant
                1 <= i <= s@.len(),
                rest@ == s@.subrange(1, i as int),
            decreases s.len() - i,
        {
            rest.push(s[i]);
            proof {
                assert(s@.subrange(1, i as int + 1)
                    =~= s@.subrange(1, i as int) + seq![s@[i as int]]);
            }
            i += 1;
        }
        proof {
            assert(rest@ =~= s@.skip(1));
        }
        parse_decimal(&rest)
    } else {
        parse_decimal(s)
    }
}

/// The TTL the server uses: the configured text's value where one was
/// given and reads as a number, the default where none was given, and
/// nothing — a fatal startup condition — where the text is unreadable.
pub fn ttl_from_config(text: Option<Vec<u8>>) -> (r: Option<u32>)
    ensures
        text is None ==> r == Some(DEFAULT_TTL),
        text matches Some(t) ==> if ttl_digits(t@).len() > 0 && all_digits(ttl_digits(t@))
            && dec_val(ttl_digits(t@)) <= u32::MAX {
            (r matches Some(v) && v == dec_val(ttl_digits(t@)))
        } else {
            r is None
        },
{
    match text {
        None => Some(DEFAULT_TTL),
        Some(t) => parse_ttl(&t),
    }
}

} // verus!
