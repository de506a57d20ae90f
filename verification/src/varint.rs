use vstd::prelude::*;

use vstd::arithmetic::div_mod::lemma_fundamental_div_mod;
use vstd::arithmetic::div_mod::lemma_fundamental_div_mod_converse;
use vstd::assert_seqs_equal;

use crate::error::Error;

verus! {

/// Little-endian base-128 encoding of an unsigned integer: each byte carries
/// seven value bits, and the high bit is set on every byte except the last.
pub open spec fn varint_data(n: u64) -> Seq<u8>
    decreases n,
{
    if n < 128 {
        seq![n as u8]
    } else {
        seq![(n % 128 + 128) as u8] + varint_data(n / 128)
    }
}

/// The encoding of `n` occupies `s[pos .. pos + varint_data(n).len()]`.
pub open spec fn varint_at(s: Seq<u8>, pos: int, n: u64) -> bool {
    &&& 0 <= pos
    &&& pos + varint_data(n).len() <= s.len()
    &&& s.subrange(pos, pos + varint_data(n).len() as int) == varint_data(n)
}

/// 128 raised to the `k`th power.
pub open spec fn pow128(k: nat) -> int
    decreases k,
{
    if k == 0 {
        1
    } else {
        128 * pow128((k - 1) as nat)
    }
}

/// An encoding longer than `k` bytes, `k` positive, means the value is at
/// least `128^k`.
proof fn lemma_varint_data_min(n: u64, k: nat)
    requires
        1 <= k,
        varint_data(n).len() > k,
    ensures
        n >= pow128(k),
    decreases k,
{
    assert(n >= 128);
    lemma_fundamental_div_mod(n as int, 128);
    if k == 1 {
    } else {
        lemma_varint_data_min(n / 128, (k - 1) as nat);
        assert(128 * (n / 128) >= 128 * pow128((k - 1) as nat)) by (nonlinear_arith)
            requires
                n / 128 >= pow128((k - 1) as nat),
        ;
    }
}

/// A varint encoding takes between one and ten bytes.
pub proof fn lemma_varint_data_len(n: u64)
    ensures
        1 <= varint_data(n).len() <= 10,
{
    if varint_data(n).len() > 10 {
        lemma_varint_data_min(n, 10);
        assert(pow128(0) == 1);
        assert(pow128(1) == 128);
        assert(pow128(2) == 16384);
        assert(pow128(3) == 2097152);
        assert(pow128(4) == 268435456);
        assert(pow128(5) == 34359738368);
        assert(pow128(6) == 4398046511104);
        assert(pow128(7) == 562949953421312);
        assert(pow128(8) == 72057594037927936);
        assert(pow128(9) == 9223372036854775808);
        assert(pow128(10) == 1180591620717411303424);
        assert(false);
    }
}

/// Every byte of an encoding except the last has its high bit set; the last
/// byte does not.
pub proof fn lemma_varint_data_bytes(n: u64)
    ensures
        varint_data(n).last() < 128,
        forall|i: int|
            0 <= i < varint_data(n).len() - 1 ==> #[trigger] varint_data(n)[i] >= 128,
    decreases n,
{
    if n >= 128 {
        lemma_varint_data_bytes(n / 128);
        lemma_varint_data_len(n / 128);
        assert forall|i: int|
            0 <= i < varint_data(n).len() - 1 implies #[trigger] varint_data(n)[i] >= 128 by {
            if i > 0 {
                assert(varint_data(n)[i] == varint_data(n / 128)[i - 1]);
            }
        }
    }
}

/// No varint encoding is a proper prefix of another: the byte where the
/// shorter one ends has its high bit clear, and the longer encoding does not
/// allow that there.
pub proof fn lemma_varint_prefix(a: u64, b: u64)
    requires
        varint_data(a).len() <= varint_data(b).len(),
        varint_data(a) == varint_data(b).subrange(0, varint_data(a).len() as int),
    ensures
        a == b,
    decreases a,
{
    lemma_varint_data_bytes(a);
    lemma_varint_data_bytes(b);
    let la = varint_data(a).len() as int;
    let lb = varint_data(b).len() as int;
    if la < lb {
        assert(varint_data(a)[la - 1] == varint_data(b).subrange(0, la)[la - 1]);
        assert(varint_data(a).last() < 128);
        assert(varint_data(b)[la - 1] >= 128);
        assert(false);
    } else {
        assert(varint_data(a) =~= varint_data(b));
        if a < 128 && b < 128 {
            assert(varint_data(a)[0] == varint_data(b)[0]);
        } else if a >= 128 && b >= 128 {
            assert(varint_data(a)[0] == varint_data(b)[0]);
            assert(a % 128 == b % 128);
            assert(varint_data(a / 128) == varint_data(b / 128)) by {
                assert_seqs_equal!(varint_data(a / 128), varint_data(b / 128), i => {
                    assert(varint_data(a)[i + 1] == varint_data(a / 128)[i]);
                    assert(varint_data(b)[i + 1] == varint_data(b / 128)[i]);
                });
            }
            assert(varint_data(a / 128)
                == varint_data(b / 128).subrange(0, varint_data(a / 128).len() as int)) by {
                assert_seqs_equal!(
                    varint_data(a / 128),
                    varint_data(b / 128).subrange(0, varint_data(a / 128).len() as int)
                );
            }
            lemma_varint_prefix(a / 128, b / 128);
            lemma_fundamental_div_mod(a as int, 128);
            lemma_fundamental_div_mod(b as int, 128);
        } else if a < 128 {
            lemma_varint_data_len(b / 128);
            assert(false);
        } else {
            lemma_varint_data_len(a / 128);
            assert(false);
        }
    }
}

/// At one stream position there is at most one decodable value.
pub proof fn lemma_varint_unique(s: Seq<u8>, pos: int, a: u64, b: u64)
    requires
        varint_at(s, pos, a),
        varint_at(s, pos, b),
    ensures
        a == b,
{
    let la = varint_data(a).len() as int;
    let lb = varint_data(b).len() as int;
    if la <= lb {
        assert(varint_data(a) == varint_data(b).subrange(0, la)) by {
            assert_seqs_equal!(varint_data(a), varint_data(b).subrange(0, la), i => {
                assert(s.subrange(pos, pos + la)[i] == varint_data(a)[i]);
                assert(s.subrange(pos, pos + lb)[i] == varint_data(b)[i]);
            });
        }
        lemma_varint_prefix(a, b);
    } else {
        assert(varint_data(b) == varint_data(a).subrange(0, lb)) by {
            assert_seqs_equal!(varint_data(b), varint_data(a).subrange(0, lb), i => {
                assert(s.subrange(pos, pos + la)[i] == varint_data(a)[i]);
                assert(s.subrange(pos, pos + lb)[i] == varint_data(b)[i]);
            });
        }
        lemma_varint_prefix(b, a);
    }
}

/// Two equal encodings come from one value: the varint round-trip law.
pub proof fn lemma_varint_injective(a: u64, b: u64)
    requires
        varint_data(a) == varint_data(b),
    ensures
        a == b,
{
    assert(varint_data(a) == varint_data(b).subrange(0, varint_data(a).len() as int)) by {
        assert_seqs_equal!(
            varint_data(a),
            varint_data(b).subrange(0, varint_data(a).len() as int)
        );
    }
    lemma_varint_prefix(a, b);
}

/// Appends the encoding of `n` to `out`.
pub fn encode_varint(n: u64, out: &mut Vec<u8>)
    ensures
        final(out)@ == old(out)@ + varint_data(n),
    decreases n,
{
    if n < 128 {
        out.push(n as u8);
        assert(out@ == old(out)@ + varint_data(n)) by {
            assert_seqs_equal!(out@, old(out)@ + varint_data(n));
        }
    } else {
        out.push((n % 128 + 128) as u8);
        encode_varint(n / 128, out);
        assert(out@ == old(out)@ + varint_data(n)) by {
            assert_seqs_equal!(out@, old(out)@ + varint_data(n));
        }
    }
}

/// The number of bytes the encoding of `n` occupies.
pub fn varint_size(n: u64) -> (r: u32)
    ensures
        r == varint_data(n).len(),
    decreases n,
{
    if n < 128 {
        1
    } else {
        proof {
            lemma_varint_data_len(n / 128);
        }
        1 + varint_size(n / 128)
    }
}

/// Reads one varint starting at `pos`. Returns the value and the position
/// just past it; reports a decode error exactly when no value's encoding
/// stands at `pos`: the stream is truncated there, wider than 64 bits, or not
/// the minimal form.
pub fn decode_varint(bytes: &Vec<u8>, pos: usize) -> (r: Result<(u64, usize), Error>)
    ensures
        match r {
            Ok((n, end)) => {
                &&& varint_at(bytes@, pos as int, n)
                &&& end == pos + varint_data(n).len()
            },
            Err(e) => {
                &&& e == Error::Decode
                &&& forall|n: u64| !varint_at(bytes@, pos as int, n)
            },
        },
    decreases bytes@.len() - pos,
{
    if pos >= bytes.len() {
        proof {
            assert forall|n: u64| !varint_at(bytes@, pos as int, n) by {
                lemma_varint_data_len(n);
            }
        }
        return Err(Error::Decode);
    }
    let b = bytes[pos];
    if b < 128 {
        let n = b as u64;
        assert(varint_at(bytes@, pos as int, n)) by {
            assert_seqs_equal!(bytes@.subrange(pos as int, pos + 1), varint_data(n));
        }
        Ok((n, pos + 1))
    } else {
        match decode_varint(bytes, pos + 1) {
            Ok((rest, end)) => {
                if rest == 0 {
                    proof {
                        assert forall|n: u64| !varint_at(bytes@, pos as int, n) by {
                            if varint_at(bytes@, pos as int, n) {
                                lemma_rest_of_continuation(bytes@, pos as int, n, b);
                                lemma_varint_unique(bytes@, pos + 1, n / 128, rest);
                            }
                        }
                    }
                    Err(Error::Decode)
                } else if rest <= u64::MAX / 128 {
                    let low: u64 = (b - 128) as u64;
                    let n: u64 = low + 128 * rest;
                    proof {
                        lemma_fundamental_div_mod_converse(n as int, 128, rest as int, low as int);
                        assert(varint_data(n) == seq![b] + varint_data(rest));
                        assert(varint_at(bytes@, pos as int, n)) by {
                            assert_seqs_equal!(
                                bytes@.subrange(pos as int, pos + varint_data(n).len() as int),
                                varint_data(n),
                                i => {
                                    if i > 0 {
                                        assert(bytes@.subrange(
                                            pos + 1,
                                            pos + 1 + varint_data(rest).len() as int,
                                        )[i - 1] == varint_data(rest)[i - 1]);
                                    }
                                }
                            );
                        }
                    }
                    Ok((n, end))
                } else {
                    proof {
                        assert forall|n: u64| !varint_at(bytes@, pos as int, n) by {
                            if varint_at(bytes@, pos as int, n) {
                                lemma_rest_of_continuation(bytes@, pos as int, n, b);
                                lemma_varint_unique(bytes@, pos + 1, n / 128, rest);
                                lemma_fundamental_div_mod(n as int, 128);
                                assert(128 * rest <= n);
                            }
                        }
                    }
                    Err(Error::Decode)
                }
            },
            Err(e) => {
                proof {
                    assert forall|n: u64| !varint_at(bytes@, pos as int, n) by {
                        if varint_at(bytes@, pos as int, n) {
                            lemma_rest_of_continuation(bytes@, pos as int, n, b);
                        }
                    }
                }
                Err(e)
            },
        }
    }
}

/// A value whose encoding starts with a continuation byte `b` is at least
/// 128, agrees with `b` on its low seven bits, and has its remaining bits
/// encoded immediately after.
proof fn lemma_rest_of_continuation(s: Seq<u8>, pos: int, n: u64, b: u8)
    requires
        varint_at(s, pos, n),
        s[pos] == b,
        b >= 128,
    ensures
        n >= 128,
        n % 128 == b - 128,
        n / 128 >= 1,
        varint_at(s, pos + 1, n / 128),
{
    assert(s.subrange(pos, pos + varint_data(n).len() as int)[0] == s[pos]);
    if n < 128 {
        assert(varint_data(n)[0] == n as u8);
        assert(false);
    }
    assert(varint_data(n)[0] == (n % 128 + 128) as u8);
    assert(n / 128 >= 1) by (nonlinear_arith)
        requires
            n >= 128,
    ;
    assert(varint_at(s, pos + 1, n / 128)) by {
        assert_seqs_equal!(
            s.subrange(pos + 1, pos + 1 + varint_data(n / 128).len() as int),
            varint_data(n / 128),
            i => {
                assert(s.subrange(pos, pos + varint_data(n).len() as int)[i + 1]
                    == varint_data(n)[i + 1]);
            }
        );
    }
}

} // verus!
