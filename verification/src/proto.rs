//! Decoding of the host's instantiate-reply payload.
//!
//! The reply that announces the freshly instantiated share token carries a
//! wire-format message: a stream of fields, each a base-128 varint tag
//! (field number and wire type) followed by the field's payload. The
//! contract address is the length-delimited field number one; every other
//! field is skipped over. A tag or length that does not encode a 64-bit
//! value in at most ten bytes, a group wire type, or a truncated payload is
//! rejected, which a caller treats as a parse failure.

use vstd::prelude::*;

verus! {

/// The base-128 varint starting at `pos`: its value and end position.
/// Low-order groups come first; a byte below 128 ends the encoding.
pub open spec fn varint_at(data: Seq<u8>, pos: int) -> Option<(nat, int)>
    decreases data.len() - pos,
{
    if pos < 0 || pos >= data.len() {
        None
    } else {
        let b = data[pos];
        if b < 128 {
            Some((b as nat, pos + 1))
        } else {
            match varint_at(data, pos + 1) {
                None => None,
                Some((v, e)) => Some(((b - 128) as nat + 128 * v, e)),
            }
        }
    }
}

/// A varint the wire format accepts: present, a 64-bit value, at most ten
/// bytes long.
pub open spec fn wf_varint(data: Seq<u8>, pos: int) -> bool {
    match varint_at(data, pos) {
        None => false,
        Some((v, e)) => v < 0x10000000000000000 && e - pos <= 10,
    }
}

/// A decoded varint ends after the byte below 128, inside the data.
pub proof fn lemma_varint_end(data: Seq<u8>, pos: int)
    requires
        varint_at(data, pos) is Some,
    ensures
        pos < (varint_at(data, pos)->0).1 <= data.len(),
    decreases data.len() - pos,
{
    if data[pos] >= 128 {
        lemma_varint_end(data, pos + 1);
    }
}

/// The payload of the first field-one length-delimited entry at or after
/// `pos`; `None` when the bytes do not fit the wire format.
pub open spec fn reply_addr_at(data: Seq<u8>, pos: int) -> Option<Seq<u8>>
    decreases data.len() - pos,
{
    if pos < 0 || pos >= data.len() {
        None
    } else if !wf_varint(data, pos) {
        None
    } else {
        let (tag, p1) = varint_at(data, pos)->0;
        proof {
            lemma_varint_end(data, pos);
        }
        let wire = tag % 8;
        if wire == 0 {
            // varint field: skip its value
            if !wf_varint(data, p1) {
                None
            } else {
                let (_v, p2) = varint_at(data, p1)->0;
                proof {
                    lemma_varint_end(data, p1);
                }
                reply_addr_at(data, p2)
            }
        } else if wire == 1 {
            // eight-byte field
            if p1 + 8 > data.len() {
                None
            } else {
                reply_addr_at(data, p1 + 8)
            }
        } else if wire == 5 {
            // four-byte field
            if p1 + 4 > data.len() {
                None
            } else {
                reply_addr_at(data, p1 + 4)
            }
        } else if wire == 2 {
            // length-delimited field
            if !wf_varint(data, p1) {
                None
            } else {
                let (l, p2) = varint_at(data, p1)->0;
                proof {
                    lemma_varint_end(data, p1);
                }
                if p2 + l > data.len() {
                    None
                } else if tag / 8 == 1 {
                    Some(data.subrange(p2, p2 + l))
                } else {
                    reply_addr_at(data, p2 + l)
                }
            }
        } else {
            // group wire types: outside the accepted format
            None
        }
    }
}

/// The contract address carried by an instantiate reply.
pub open spec fn spec_reply_contract_addr(data: Seq<u8>) -> Option<Seq<u8>> {
    reply_addr_at(data, 0)
}

/// Read one varint: its 64-bit value and end position, or `None` where the
/// bytes hold no varint the wire format accepts.
#[verifier::loop_isolation(false)]
fn read_varint(data: &[u8], pos: usize) -> (r: Option<(u64, usize)>)
    requires
        pos <= data@.len(),
    ensures
        match r {
            Some(p) => varint_at(data@, pos as int) == Some((p.0 as nat, p.1 as int))
                && wf_varint(data@, pos as int) && pos < p.1 <= data@.len(),
            None => !wf_varint(data@, pos as int),
        },
{
    let n = data.len();
    proof {
        vstd::arithmetic::power2::lemma2_to64();
    }
    let mut acc: u64 = 0;
    let mut mult: u64 = 1;
    let mut k: usize = 0;
    while k < 10
        invariant
            k <= 9,
            pos + k <= n,
            mult == vstd::arithmetic::power2::pow2((7 * k) as nat),
            mult <= 0x8000000000000000,
            // the whole varint is the bytes read so far plus a varint tail
            varint_at(data@, pos as int) == (match varint_at(data@, (pos + k) as int) {
                None => None::<(nat, int)>,
                Some((v, e)) => Some(((acc + mult * v) as nat, e)),
            }),
        decreases 10 - k,
    {
        proof {
            vstd::arithmetic::power2::lemma2_to64();
            vstd::arithmetic::power2::lemma2_to64_rest();
        }
        if pos + k >= n {
            // the data ends inside the varint
            return None;
        }
        let b = data[pos + k];
        let low: u64 = (b % 128) as u64;
        let term = match low.checked_mul(mult) {
            Some(t) => t,
            None => {
                proof {
                    if varint_at(data@, pos as int) is Some {
                        lemma_varint_low_bound(data@, (pos + k) as int);
                        let (v, _e) = varint_at(data@, (pos + k) as int)->0;
                        assert(mult * v >= mult * low) by (nonlinear_arith)
                            requires
                                v >= low,
                                mult >= 0,
                        ;
                    }
                }
                return None;
            },
        };
        let acc2 = match acc.checked_add(term) {
            Some(a) => a,
            None => {
                proof {
                    if varint_at(data@, pos as int) is Some {
                        lemma_varint_low_bound(data@, (pos + k) as int);
                        let (v, _e) = varint_at(data@, (pos + k) as int)->0;
                        assert(mult * v >= low * mult) by (nonlinear_arith)
                            requires
                                v >= low,
                                mult >= 0,
                        ;
                    }
                }
                return None;
            },
        };
        if b < 128 {
            proof {
                assert(varint_at(data@, (pos + k) as int) == Some((b as nat, (pos + k + 1) as int)));
                assert(mult * (b as int) == low * mult) by (nonlinear_arith)
                    requires
                        low == b,
                ;
            }
            return Some((acc2, pos + k + 1));
        }
        // a continuation byte: the tail shifts up by one group
        proof {
            vstd::arithmetic::power2::lemma_pow2_adds((7 * k) as nat, 7);
            if varint_at(data@, (pos + k + 1) as int) is Some {
                let (v, _e) = varint_at(data@, (pos + k + 1) as int)->0;
                assert(acc + mult * ((b - 128) + 128 * v) == acc2 + (mult * 128) * v)
                    by (nonlinear_arith)
                    requires
                        acc2 == acc + mult * (b - 128),
                        v >= 0,
                ;
            }
        }
        if k == 9 {
            // an eleventh byte would make the varint too long
            proof {
                if varint_at(data@, pos as int) is Some {
                    lemma_varint_end(data@, (pos + k + 1) as int);
                }
            }
            return None;
        }
        acc = acc2;
        mult = mult * 128;
        k = k + 1;
    }
    None
}

/// A varint's value is at least the low seven bits of its first byte.
proof fn lemma_varint_low_bound(data: Seq<u8>, pos: int)
    requires
        varint_at(data, pos) is Some,
    ensures
        (varint_at(data, pos)->0).0 >= data[pos] % 128,
{
    if data[pos] >= 128 {
        let (v, _e) = varint_at(data, pos + 1)->0;
        assert(128 * v >= 0) by (nonlinear_arith)
            requires
                v >= 0,
        ;
    }
}

/// Extract the contract address from an instantiate-reply payload.
#[verifier::loop_isolation(false)]
pub fn reply_contract_addr(data: &[u8]) -> (r: Option<Vec<u8>>)
    ensures
        r is Some <==> spec_reply_contract_addr(data@) is Some,
        r is Some ==> r->0@ == spec_reply_contract_addr(data@)->0,
{
    let n = data.len();
    let mut pos: usize = 0;
    while pos < n
        invariant
            pos <= n,
            spec_reply_contract_addr(data@) == reply_addr_at(data@, pos as int),
        decreases n - pos,
    {
        let (tag, p1) = match read_varint(data, pos) {
            Some(p) => p,
            None => {
                return None;
            },
        };
        let wire = tag % 8;
        if wire == 0 {
            let (_v, p2) = match read_varint(data, p1) {
                Some(p) => p,
                None => {
                    return None;
                },
            };
            pos = p2;
        } else if wire == 1 {
            if n - p1 < 8 {
                return None;
            }
            pos = p1 + 8;
        } else if wire == 5 {
            if n - p1 < 4 {
                return None;
            }
            pos = p1 + 4;
        } else if wire == 2 {
            let (l, p2) = match read_varint(data, p1) {
                Some(p) => p,
                None => {
                    return None;
                },
            };
            if l > (n - p2) as u64 {
                return None;
            }
            let end = p2 + l as usize;
            if tag / 8 == 1 {
                let field = vstd::slice::slice_subrange(data, p2, end);
                return Some(vstd::slice::slice_to_vec(field));
            }
            pos = end;
        } else {
            return None;
        }
    }
    None
}

} // verus!
