//! Short runs of ASCII characters (up to four, the longest a penalty looks at),
//! packed into one integer so that they can key a hash map.
//!
//! A run is packed one byte per character, the character's code plus one, the
//! last character in the lowest byte; the empty run packs to zero.
use vstd::prelude::*;
use vstd::arithmetic::div_mod::lemma_fundamental_div_mod_converse;

verus! {

/// A run that can be packed: at most four characters, all ASCII.
pub open spec fn is_gram(s: Seq<char>) -> bool {
    &&& s.len() <= 4
    &&& forall|i: int| 0 <= i < s.len() ==> 0 <= (#[trigger] s[i] as int) < 128
}

/// The packed form of a run.
pub open spec fn gram_code(s: Seq<char>) -> int
    decreases s.len(),
{
    if s.len() == 0 {
        0
    } else {
        gram_code(s.drop_last()) * 256 + (s.last() as int) + 1
    }
}

/// The run that a packed form stands for.
pub open spec fn gram_chars(k: int) -> Seq<char>
    decreases k,
{
    if k <= 0 {
        Seq::empty()
    } else {
        gram_chars(k / 256).push(((k % 256) - 1) as char)
    }
}

/// 256 to the power `n`.
pub open spec fn byte_power(n: nat) -> int
    decreases n,
{
    if n == 0 {
        1
    } else {
        256 * byte_power((n - 1) as nat)
    }
}

proof fn lemma_byte_power_small(n: nat)
    requires
        n <= 4,
    ensures
        byte_power(n) <= 0x1_0000_0000,
{
    assert(byte_power(0) == 1);
    assert(byte_power(1) == 256);
    assert(byte_power(2) == 65536);
    assert(byte_power(3) == 16777216);
    assert(byte_power(4) == 4294967296);
}

proof fn lemma_gram_code_step(s: Seq<char>)
    requires
        s.len() > 0,
        is_gram(s),
    ensures
        gram_code(s) / 256 == gram_code(s.drop_last()),
        gram_code(s) % 256 == (s.last() as int) + 1,
{
    let l = s.last() as int;
    assert(0 <= l < 128) by {
        assert(s.last() == s[s.len() - 1]);
    }
    lemma_fundamental_div_mod_converse(gram_code(s), 256, gram_code(s.drop_last()), l + 1);
}

proof fn lemma_gram_code_bounds(s: Seq<char>)
    requires
        is_gram(s),
    ensures
        0 <= gram_code(s) < byte_power(s.len()),
        s.len() > 0 ==> gram_code(s) > 0,
    decreases s.len(),
{
    if s.len() > 0 {
        let t = s.drop_last();
        assert(is_gram(t)) by {
            assert forall|i: int| 0 <= i < t.len() implies 0 <= (#[trigger] t[i] as int) < 128 by {
                assert(t[i] == s[i]);
            }
        }
        lemma_gram_code_bounds(t);
        assert(s.last() == s[s.len() - 1]);
        assert(gram_code(s) < byte_power(s.len())) by (nonlinear_arith)
            requires
                gram_code(s) == gram_code(t) * 256 + (s.last() as int) + 1,
                gram_code(t) + 1 <= byte_power(t.len()),
                (s.last() as int) + 1 <= 128,
                byte_power(s.len()) == 256 * byte_power(t.len()),
        ;
    }
}

/// Unpacking a packed run gives the run back.
pub proof fn lemma_gram_roundtrip(s: Seq<char>)
    requires
        is_gram(s),
    ensures
        gram_chars(gram_code(s)) == s,
    decreases s.len(),
{
    lemma_gram_code_bounds(s);
    if s.len() > 0 {
        let t = s.drop_last();
        assert(is_gram(t)) by {
            assert forall|i: int| 0 <= i < t.len() implies 0 <= (#[trigger] t[i] as int) < 128 by {
                assert(t[i] == s[i]);
            }
        }
        lemma_gram_code_step(s);
        lemma_gram_roundtrip(t);
        assert(s.last() == s[s.len() - 1]);
        assert(gram_chars(gram_code(s)) == t.push(s.last()));
        assert(t.push(s.last()) =~= s);
    }
}

/// Different runs pack differently.
pub proof fn lemma_gram_code_injective(s: Seq<char>, t: Seq<char>)
    requires
        is_gram(s),
        is_gram(t),
        gram_code(s) == gram_code(t),
    ensures
        s == t,
{
    lemma_gram_roundtrip(s);
    lemma_gram_roundtrip(t);
}

/// The packed form of a run.
pub fn gram_code_of(s: &[char]) -> (k: u64)
    requires
        is_gram(s@),
    ensures
        k == gram_code(s@),
        k < 0x1_0000_0000,
{
    let mut k: u64 = 0;
    let mut i: usize = 0;
    proof {
        lemma_gram_code_bounds(s@);
        assert(s@.subrange(0, 0) =~= Seq::<char>::empty());
    }
    while i < s.len()
        invariant
            i <= s@.len(),
            is_gram(s@),
            k == gram_code(s@.subrange(0, i as int)),
        decreases s@.len() - i,
    {
        let ghost pre = s@.subrange(0, i as int);
        let ghost next = s@.subrange(0, i + 1);
        proof {
            assert(next.drop_last() =~= pre);
            assert(next.last() == s@[i as int]);
            assert(is_gram(next)) by {
                assert forall|j: int| 0 <= j < next.len() implies 0 <= (#[trigger] next[j] as int) < 128 by {
                    assert(next[j] == s@[j]);
                }
            }
            lemma_gram_code_bounds(next);
            lemma_byte_power_small(next.len());
        }
        let c = s[i];
        let code = c as u32;
        assert(0 <= (c as int) < 128);
        assert(code as int == c as int);
        assert(gram_code(next) == k * 256 + (c as int) + 1);
        assert(gram_code(next) < 0x1_0000_0000);
        k = k * 256 + (code as u64) + 1;
        i += 1;
    }
    proof {
        assert(s@.subrange(0, s@.len() as int) =~= s@);
        lemma_gram_code_bounds(s@);
        lemma_byte_power_small(s@.len());
    }
    k
}

/// `k` is the packed form of some run.
pub open spec fn is_gram_code(k: int) -> bool {
    exists|s: Seq<char>| is_gram(s) && gram_code(s) == k
}

/// The run that `k` is the packed form of, or `None` where `k` packs no run.
pub fn gram_chars_of(k: u64) -> (r: Option<Vec<char>>)
    ensures
        r is Some <==> is_gram_code(k as int),
        r matches Some(s) ==> is_gram(s@) && gram_code(s@) == k && s@ == gram_chars(k as int),
    decreases k,
{
    if k == 0 {
        let v: Vec<char> = Vec::new();
        proof {
            assert(gram_code(v@) == 0);
            assert(is_gram(v@));
        }
        return Some(v);
    }
    let d = k % 256;
    if d == 0 || d > 128 {
        proof {
            if is_gram_code(k as int) {
                let g = choose|g: Seq<char>| is_gram(g) && gram_code(g) == k;
                lemma_gram_code_step(g);
                assert(g.last() == g[g.len() - 1]);
            }
        }
        return None;
    }
    match gram_chars_of(k / 256) {
        None => {
            proof {
                if is_gram_code(k as int) {
                    let g = choose|g: Seq<char>| is_gram(g) && gram_code(g) == k;
                    lemma_gram_code_step(g);
                    let t = g.drop_last();
                    assert(is_gram(t)) by {
                        assert forall|i: int| 0 <= i < t.len() implies 0 <= (#[trigger] t[i] as int) < 128 by {
                            assert(t[i] == g[i]);
                        }
                    }
                    assert(is_gram_code(k as int / 256));
                }
            }
            None
        },
        Some(mut v) => {
            if v.len() >= 4 {
                proof {
                    if is_gram_code(k as int) {
                        let g = choose|g: Seq<char>| is_gram(g) && gram_code(g) == k;
                        lemma_gram_code_step(g);
                        let t = g.drop_last();
                        assert(is_gram(t)) by {
                            assert forall|i: int| 0 <= i < t.len() implies 0 <= (#[trigger] t[i] as int) < 128 by {
                                assert(t[i] == g[i]);
                            }
                        }
                        lemma_gram_code_injective(t, v@);
                    }
                }
                return None;
            }
            let c = ((d - 1) as u8) as char;
            let ghost pre = v@;
            v.push(c);
            proof {
                assert(v@.drop_last() =~= pre);
                assert(v@.last() == c);
                assert(is_gram(v@)) by {
                    assert forall|i: int| 0 <= i < v@.len() implies 0 <= (#[trigger] v@[i] as int) < 128 by {
                        if i < pre.len() {
                            assert(v@[i] == pre[i]);
                        }
                    }
                }
                assert(gram_code(v@) == k);
                lemma_gram_roundtrip(v@);
            }
            Some(v)
        },
    }
}

} // verus!
