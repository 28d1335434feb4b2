//! Serialization of blocks: a flat little-endian encoding that loses no
//! field.  A block becomes a sequence of 64-bit words — header fields,
//! then each counted list — and the words become little-endian bytes.
//! Decoding returns how much input it consumed, so a file of consecutive
//! blocks can be read back block by block.

use vstd::prelude::*;
use vstd::bytes::{
    lemma_auto_spec_u64_to_from_le_bytes, spec_u64_from_le_bytes, spec_u64_to_le_bytes,
    u64_from_le_bytes, u64_to_le_bytes,
};
use crate::types::{BlockModel, Commit, Header, LightBlock, Signature, Validator, ValidatorSet};

verus! {

/// Why a decode failed.
#[derive(Clone, Copy, PartialEq, Eq, Structural, Debug)]
pub enum CodecError {
    /// The input ends before the encoded block does.
    Truncated,
    /// The input's byte length is not a whole number of words.
    NotWordAligned,
}

/// A signature list as words: two words per signature.
pub open spec fn enc_signatures(sigs: Seq<Signature>) -> Seq<u64> {
    Seq::new((2 * sigs.len()) as nat, |k: int| if k % 2 == 0 {
        sigs[k / 2].validator_id
    } else {
        sigs[k / 2].sig
    })
}

/// A validator list as words: two words per validator.
pub open spec fn enc_validators(vals: Seq<Validator>) -> Seq<u64> {
    Seq::new((2 * vals.len()) as nat, |k: int| if k % 2 == 0 {
        vals[k / 2].id
    } else {
        vals[k / 2].power
    })
}

/// A block as words: the five header fields, then each list behind its
/// count.
pub open spec fn enc_block(b: BlockModel) -> Seq<u64> {
    seq![
        b.header.height,
        b.header.time,
        b.header.validators_hash,
        b.header.next_validators_hash,
        b.header.app_hash,
        b.signatures.len() as u64,
    ] + enc_signatures(b.signatures) + seq![b.validators.len() as u64] + enc_validators(
        b.validators,
    ) + seq![b.next_validators.len() as u64] + enc_validators(b.next_validators)
}

/// Decoding of one block from a word sequence: the block and the number of
/// words consumed, or nothing when the input is too short.
pub open spec fn dec_block(ws: Seq<u64>) -> Option<(BlockModel, int)> {
    if ws.len() < 6 {
        None
    } else {
        let nsig = ws[5] as int;
        if ws.len() < 7 + 2 * nsig {
            None
        } else {
            let nval = ws[6 + 2 * nsig] as int;
            if ws.len() < 8 + 2 * nsig + 2 * nval {
                None
            } else {
                let nnext = ws[7 + 2 * nsig + 2 * nval] as int;
                let total = 8 + 2 * nsig + 2 * nval + 2 * nnext;
                if ws.len() < total {
                    None
                } else {
                    Some(
                        (
                            BlockModel {
                                header: Header {
                                    height: ws[0],
                                    time: ws[1],
                                    validators_hash: ws[2],
                                    next_validators_hash: ws[3],
                                    app_hash: ws[4],
                                },
                                signatures: Seq::new(nsig as nat, |i: int| Signature {
                                    validator_id: ws[6 + 2 * i],
                                    sig: ws[6 + 2 * i + 1],
                                }),
                                validators: Seq::new(nval as nat, |i: int| Validator {
                                    id: ws[7 + 2 * nsig + 2 * i],
                                    power: ws[7 + 2 * nsig + 2 * i + 1],
                                }),
                                next_validators: Seq::new(nnext as nat, |i: int| Validator {
                                    id: ws[8 + 2 * nsig + 2 * nval + 2 * i],
                                    power: ws[8 + 2 * nsig + 2 * nval + 2 * i + 1],
                                }),
                            },
                            total,
                        ),
                    )
                }
            }
        }
    }
}

/// Round trip at the word level: decoding an encoded block, whatever
/// follows it in the input, yields the block back and consumes exactly its
/// encoding.  Every field of the block — heights, times, hashes,
/// signatures, powers — survives.
pub proof fn lemma_word_round_trip(b: BlockModel, rest: Seq<u64>)
    requires
        b.signatures.len() <= u64::MAX,
        b.validators.len() <= u64::MAX,
        b.next_validators.len() <= u64::MAX,
    ensures
        dec_block(enc_block(b) + rest) == Some((b, enc_block(b).len() as int)),
{
    let ws = enc_block(b) + rest;
    let nsig = b.signatures.len() as int;
    let nval = b.validators.len() as int;
    let nnext = b.next_validators.len() as int;
    assert(enc_block(b).len() == 8 + 2 * nsig + 2 * nval + 2 * nnext);
    assert(ws[5] as int == nsig);
    assert(ws[6 + 2 * nsig] as int == nval);
    assert(ws[7 + 2 * nsig + 2 * nval] as int == nnext);
    let m = dec_block(ws).unwrap().0;
    assert(m.signatures =~= b.signatures) by {
        assert forall|i: int| 0 <= i < nsig implies m.signatures[i] == b.signatures[i] by {
            assert(ws[6 + 2 * i] == enc_signatures(b.signatures)[2 * i]);
            assert(ws[6 + 2 * i + 1] == enc_signatures(b.signatures)[2 * i + 1]);
            assert((2 * i) / 2 == i && (2 * i + 1) / 2 == i);
        }
    }
    assert(m.validators =~= b.validators) by {
        assert forall|i: int| 0 <= i < nval implies m.validators[i] == b.validators[i] by {
            assert(ws[7 + 2 * nsig + 2 * i] == enc_validators(b.validators)[2 * i]);
            assert(ws[7 + 2 * nsig + 2 * i + 1] == enc_validators(b.validators)[2 * i + 1]);
            assert((2 * i) / 2 == i && (2 * i + 1) / 2 == i);
        }
    }
    assert(m.next_validators =~= b.next_validators) by {
        assert forall|i: int| 0 <= i < nnext implies m.next_validators[i]
            == b.next_validators[i] by {
            assert(ws[8 + 2 * nsig + 2 * nval + 2 * i] == enc_validators(b.next_validators)[2
                * i]);
            assert(ws[8 + 2 * nsig + 2 * nval + 2 * i + 1] == enc_validators(
                b.next_validators,
            )[2 * i + 1]);
            assert((2 * i) / 2 == i && (2 * i + 1) / 2 == i);
        }
    }
    assert(m =~= b);
}

/// Words as little-endian bytes, eight per word.
pub open spec fn words_as_bytes(ws: Seq<u64>) -> Seq<u8> {
    Seq::new((8 * ws.len()) as nat, |k: int| spec_u64_to_le_bytes(ws[k / 8])[k % 8])
}

/// Bytes as words, when the length divides into whole words.
pub open spec fn bytes_as_words(bs: Seq<u8>) -> Option<Seq<u64>> {
    if bs.len() % 8 != 0 {
        None
    } else {
        Some(Seq::new(bs.len() / 8, |i: int| spec_u64_from_le_bytes(bs.subrange(8 * i, 8 * i + 8))))
    }
}

/// Round trip at the byte level: the bytes of a word sequence read back as
/// exactly that word sequence.
pub proof fn lemma_byte_round_trip(ws: Seq<u64>)
    ensures
        bytes_as_words(words_as_bytes(ws)) == Some(ws),
{
    lemma_auto_spec_u64_to_from_le_bytes();
    let bs = words_as_bytes(ws);
    assert(bs.len() == 8 * ws.len());
    let rs = bytes_as_words(bs).unwrap();
    assert(rs =~= ws) by {
        assert forall|i: int| 0 <= i < ws.len() implies rs[i] == ws[i] by {
            assert(bs.subrange(8 * i, 8 * i + 8) =~= spec_u64_to_le_bytes(ws[i])) by {
                assert forall|k: int| 0 <= k < 8 implies bs.subrange(8 * i, 8 * i + 8)[k]
                    == spec_u64_to_le_bytes(ws[i])[k] by {
                    assert(bs[8 * i + k] == spec_u64_to_le_bytes(ws[(8 * i + k) / 8])[(8 * i + k)
                        % 8]);
                    assert((8 * i + k) / 8 == i && (8 * i + k) % 8 == k);
                }
            }
        }
    }
}

/// Serializes a block to bytes.
pub fn encode_block(b: &LightBlock) -> (r: Vec<u8>)
    ensures
        r@ == words_as_bytes(enc_block(b@)),
{
    let ghost target = enc_block(b@);
    let mut ws: Vec<u64> = Vec::new();
    ws.push(b.header.height);
    ws.push(b.header.time);
    ws.push(b.header.validators_hash);
    ws.push(b.header.next_validators_hash);
    ws.push(b.header.app_hash);
    let nsig = b.commit.signatures.len();
    ws.push(nsig as u64);
    proof {
        assert(ws@ =~= target.take(6));
    }
    let mut k: usize = 0;
    while k < nsig
        invariant
            0 <= k <= nsig,
            nsig == b.commit.signatures@.len(),
            target == enc_block(b@),
            ws@ =~= target.take(6 + 2 * k),
        decreases nsig - k,
    {
        proof {
            assert(target[6 + 2 * k] == enc_signatures(b@.signatures)[2 * k]);
            assert(target[6 + 2 * k + 1] == enc_signatures(b@.signatures)[2 * k + 1]);
            assert((2 * k) / 2 == k as int && (2 * k + 1) / 2 == k as int);
        }
        ws.push(b.commit.signatures[k].validator_id);
        ws.push(b.commit.signatures[k].sig);
        proof {
            assert(ws@ =~= target.take(6 + 2 * (k + 1)));
        }
        k += 1;
    }
    let nval = b.validators.validators.len();
    ws.push(nval as u64);
    proof {
        assert(target[6 + 2 * nsig] == nval as u64);
        assert(ws@ =~= target.take(7 + 2 * nsig));
    }
    let mut k: usize = 0;
    while k < nval
        invariant
            0 <= k <= nval,
            nsig == b.commit.signatures@.len(),
            nval == b.validators.validators@.len(),
            target == enc_block(b@),
            ws@ =~= target.take(7 + 2 * nsig + 2 * k),
        decreases nval - k,
    {
        proof {
            assert(target[7 + 2 * nsig + 2 * k] == enc_validators(b@.validators)[2 * k]);
            assert(target[7 + 2 * nsig + 2 * k + 1] == enc_validators(b@.validators)[2 * k + 1]);
            assert((2 * k) / 2 == k as int && (2 * k + 1) / 2 == k as int);
        }
        ws.push(b.validators.validators[k].id);
        ws.push(b.validators.validators[k].power);
        proof {
            assert(ws@ =~= target.take(7 + 2 * nsig + 2 * (k + 1)));
        }
        k += 1;
    }
    let nnext = b.next_validators.validators.len();
    ws.push(nnext as u64);
    proof {
        assert(target[7 + 2 * nsig + 2 * nval] == nnext as u64);
        assert(ws@ =~= target.take(8 + 2 * nsig + 2 * nval));
    }
    let mut k: usize = 0;
    while k < nnext
        invariant
            0 <= k <= nnext,
            nsig == b.commit.signatures@.len(),
            nval == b.validators.validators@.len(),
            nnext == b.next_validators.validators@.len(),
            target == enc_block(b@),
            ws@ =~= target.take(8 + 2 * nsig + 2 * nval + 2 * k),
        decreases nnext - k,
    {
        proof {
            assert(target[8 + 2 * nsig + 2 * nval + 2 * k] == enc_validators(
                b@.next_validators,
            )[2 * k]);
            assert(target[8 + 2 * nsig + 2 * nval + 2 * k + 1] == enc_validators(
                b@.next_validators,
            )[2 * k + 1]);
            assert((2 * k) / 2 == k as int && (2 * k + 1) / 2 == k as int);
        }
        ws.push(b.next_validators.validators[k].id);
        ws.push(b.next_validators.validators[k].power);
        proof {
            assert(ws@ =~= target.take(8 + 2 * nsig + 2 * nval + 2 * (k + 1)));
        }
        k += 1;
    }
    proof {
        assert(ws@ =~= target);
    }
    words_to_bytes(&ws)
}

/// Lays words out as little-endian bytes.
fn words_to_bytes(ws: &Vec<u64>) -> (r: Vec<u8>)
    ensures
        r@ == words_as_bytes(ws@),
{
    let n = ws.len();
    let mut r: Vec<u8> = Vec::new();
    let mut i: usize = 0;
    while i < n
        invariant
            0 <= i <= n,
            n == ws@.len(),
            r@ =~= words_as_bytes(ws@).take(8 * i),
        decreases n - i,
    {
        let bytes8 = u64_to_le_bytes(ws[i]);
        let mut k: usize = 0;
        while k < 8
            invariant
                0 <= k <= 8,
                0 <= i < n,
                n == ws@.len(),
                bytes8@ == spec_u64_to_le_bytes(ws@[i as int]),
                bytes8@.len() == 8,
                r@ =~= words_as_bytes(ws@).take(8 * i + k),
            decreases 8 - k,
        {
            proof {
                assert(words_as_bytes(ws@)[8 * i + k] == spec_u64_to_le_bytes(
                    ws@[(8 * (i as int) + k) / 8],
                )[(8 * (i as int) + k) % 8]);
                assert((8 * (i as int) + k) / 8 == i as int && (8 * (i as int) + k) % 8 == k as int);
            }
            r.push(bytes8[k]);
            proof {
                assert(r@ =~= words_as_bytes(ws@).take(8 * i + (k + 1)));
            }
            k += 1;
        }
        i += 1;
    }
    proof {
        assert(r@ =~= words_as_bytes(ws@));
    }
    r
}

/// Reads words back from little-endian bytes.
fn bytes_to_words(bs: &[u8]) -> (r: Result<Vec<u64>, CodecError>)
    ensures
        match bytes_as_words(bs@) {
            Some(ws) => r matches Ok(v) && v@ == ws,
            None => r == Err::<Vec<u64>, CodecError>(CodecError::NotWordAligned),
        },
{
    let n = bs.len();
    if n % 8 != 0 {
        return Err(CodecError::NotWordAligned);
    }
    let ghost target = bytes_as_words(bs@).unwrap();
    let mut r: Vec<u64> = Vec::new();
    let mut i: usize = 0;
    while i < n / 8
        invariant
            0 <= i <= n / 8,
            n == bs@.len(),
            n % 8 == 0,
            target == bytes_as_words(bs@).unwrap(),
            target.len() == n / 8,
            r@ =~= target.take(i as int),
        decreases n / 8 - i,
    {
        let piece = vstd::slice::slice_subrange(bs, 8 * i, 8 * i + 8);
        let word = u64_from_le_bytes(piece);
        proof {
            assert(target[i as int] == spec_u64_from_le_bytes(bs@.subrange(
                8 * (i as int),
                8 * (i as int) + 8,
            )));
        }
        r.push(word);
        proof {
            assert(r@ =~= target.take(i as int + 1));
        }
        i += 1;
    }
    proof {
        assert(r@ =~= target);
    }
    Ok(r)
}

/// Reads one block back from bytes, returning it with the number of bytes
/// consumed, so consecutive blocks can be read from one buffer.
pub fn decode_block(bs: &[u8]) -> (r: Result<(LightBlock, usize), CodecError>)
    ensures
        match bytes_as_words(bs@) {
            None => r == Err::<(LightBlock, usize), CodecError>(CodecError::NotWordAligned),
            Some(ws) => match dec_block(ws) {
                None => r == Err::<(LightBlock, usize), CodecError>(CodecError::Truncated),
                Some((m, used)) => r matches Ok((b, u)) && b@ == m && u == 8 * used,
            },
        },
{
    let ws = match bytes_to_words(bs) {
        Ok(ws) => ws,
        Err(e) => {
            return Err(e);
        },
    };
    let n = ws.len();
    if n < 6 {
        return Err(CodecError::Truncated);
    }
    let header = Header {
        height: ws[0],
        time: ws[1],
        validators_hash: ws[2],
        next_validators_hash: ws[3],
        app_hash: ws[4],
    };
    let nsig = ws[5];
    if (n as u128) < 7 + 2 * (nsig as u128) {
        return Err(CodecError::Truncated);
    }
    let nsig = nsig as usize;
    let mut signatures: Vec<Signature> = Vec::new();
    let mut k: usize = 0;
    while k < nsig
        invariant
            0 <= k <= nsig,
            n == ws@.len(),
            7 + 2 * nsig <= n,
            signatures@.len() == k,
            forall|j: int|
                0 <= j < k ==> #[trigger] signatures@[j] == (Signature {
                    validator_id: ws@[6 + 2 * j],
                    sig: ws@[6 + 2 * j + 1],
                }),
        decreases nsig - k,
    {
        signatures.push(Signature { validator_id: ws[6 + 2 * k], sig: ws[6 + 2 * k + 1] });
        k += 1;
    }
    let nval = ws[6 + 2 * nsig];
    if (n as u128) < 8 + 2 * (nsig as u128) + 2 * (nval as u128) {
        return Err(CodecError::Truncated);
    }
    let nval = nval as usize;
    let mut validators: Vec<Validator> = Vec::new();
    let mut k: usize = 0;
    while k < nval
        invariant
            0 <= k <= nval,
            n == ws@.len(),
            8 + 2 * nsig + 2 * nval <= n,
            validators@.len() == k,
            forall|j: int|
                0 <= j < k ==> #[trigger] validators@[j] == (Validator {
                    id: ws@[7 + 2 * nsig + 2 * j],
                    power: ws@[7 + 2 * nsig + 2 * j + 1],
                }),
        decreases nval - k,
    {
        validators.push(Validator {
            id: ws[7 + 2 * nsig + 2 * k],
            power: ws[7 + 2 * nsig + 2 * k + 1],
        });
        k += 1;
    }
    let nnext = ws[7 + 2 * nsig + 2 * nval];
    if (n as u128) < 8 + 2 * (nsig as u128) + 2 * (nval as u128) + 2 * (nnext as u128) {
        return Err(CodecError::Truncated);
    }
    let nnext = nnext as usize;
    let mut next_validators: Vec<Validator> = Vec::new();
    let mut k: usize = 0;
    while k < nnext
        invariant
            0 <= k <= nnext,
            n == ws@.len(),
            8 + 2 * nsig + 2 * nval + 2 * nnext <= n,
            next_validators@.len() == k,
            forall|j: int|
                0 <= j < k ==> #[trigger] next_validators@[j] == (Validator {
                    id: ws@[8 + 2 * nsig + 2 * nval + 2 * j],
                    power: ws@[8 + 2 * nsig + 2 * nval + 2 * j + 1],
                }),
        decreases nnext - k,
    {
        next_validators.push(Validator {
            id: ws[8 + 2 * nsig + 2 * nval + 2 * k],
            power: ws[8 + 2 * nsig + 2 * nval + 2 * k + 1],
        });
        k += 1;
    }
    let b = LightBlock {
        header,
        commit: Commit { signatures },
        validators: ValidatorSet { validators },
        next_validators: ValidatorSet { validators: next_validators },
    };
    let total_bytes = bs.len();
    proof {
        assert(total_bytes == bs@.len());
        assert(bs@.len() == 8 * ws@.len());
        assert(8 + 2 * nsig + 2 * nval + 2 * nnext <= ws@.len());
    }
    let used = 8 * (8 + 2 * nsig + 2 * nval + 2 * nnext);
    proof {
        let m = dec_block(ws@).unwrap().0;
        assert(b@.signatures =~= m.signatures);
        assert(b@.validators =~= m.validators);
        assert(b@.next_validators =~= m.next_validators);
        assert(b@ =~= m);
    }
    Ok((b, used))
}

/// The full round trip: a block encoded to bytes and decoded again is the
/// same block in every field.
pub proof fn lemma_block_round_trip(b: BlockModel)
    requires
        b.signatures.len() <= u64::MAX,
        b.validators.len() <= u64::MAX,
        b.next_validators.len() <= u64::MAX,
    ensures
        ({
            let ws = bytes_as_words(words_as_bytes(enc_block(b)));
            ws matches Some(ws) && dec_block(ws) == Some((b, enc_block(b).len() as int))
        }),
{
    lemma_byte_round_trip(enc_block(b));
    lemma_word_round_trip(b, seq![]);
    assert(enc_block(b) + seq![] =~= enc_block(b));
}

} // verus!
