//! Wire format of the type table: a count-prefixed list of function-type
//! records, each a form tag followed by a count-prefixed params list and
//! a count-prefixed results list of single-byte value-type tags.

use vstd::prelude::*;
use crate::error::MutationError;
use crate::leb::{dec_leb, enc_leb, lemma_dec_leb_bound, lemma_leb_max_5, lemma_leb_round_trip,
    read_leb, write_leb};
use crate::sig::{sig_valid, table_valid, table_view, FunctionSignature, SigV};
use crate::valtype::{spec_tag_of, spec_valtype_of_tag, ValType};

verus! {

/// The form tag that opens every plain function-type record.
pub const FUNC_TYPE_TAG: u8 = 0x60;

/// The tag bytes of a list of value types.
pub open spec fn enc_types(ts: Seq<ValType>) -> Seq<u8> {
    ts.map_values(|t: ValType| spec_tag_of(t))
}

/// The record of one signature: form tag, count-prefixed params, then
/// count-prefixed results.
pub open spec fn enc_sig(s: SigV) -> Seq<u8> {
    seq![FUNC_TYPE_TAG] + enc_leb(s.params.len()) + enc_types(s.params) + enc_leb(
        s.results.len(),
    ) + enc_types(s.results)
}

/// The records of a list of signatures, in order.
pub open spec fn enc_sigs(l: Seq<SigV>) -> Seq<u8>
    decreases l.len(),
{
    if l.len() == 0 {
        Seq::empty()
    } else {
        enc_sig(l[0]) + enc_sigs(l.skip(1))
    }
}

/// The whole section: entry count, then the records.
pub open spec fn enc_table(l: Seq<SigV>) -> Seq<u8> {
    enc_leb(l.len()) + enc_sigs(l)
}

/// Reads `n` value-type tags from the front of `b`.
pub open spec fn dec_types(b: Seq<u8>, n: nat) -> Result<(Seq<ValType>, Seq<u8>), MutationError>
    decreases n,
{
    if n == 0 {
        Ok((Seq::empty(), b))
    } else if b.len() == 0 {
        Err(MutationError::DecodeError)
    } else {
        match spec_valtype_of_tag(b[0]) {
            Option::None => Err(MutationError::UnsupportedConstruct),
            Option::Some(t) => match dec_types(b.skip(1), (n - 1) as nat) {
                Result::Err(e) => Err(e),
                Result::Ok(tr) => Ok((seq![t] + tr.0, tr.1)),
            },
        }
    }
}

/// Reads one function-type record from the front of `b`.
pub open spec fn dec_sig(b: Seq<u8>) -> Result<(SigV, Seq<u8>), MutationError> {
    if b.len() == 0 {
        Err(MutationError::DecodeError)
    } else if b[0] != FUNC_TYPE_TAG {
        Err(MutationError::UnsupportedConstruct)
    } else {
        match dec_leb(b.skip(1), 5) {
            Option::None => Err(MutationError::DecodeError),
            Option::Some(np) => match dec_types(np.1, np.0) {
                Result::Err(e) => Err(e),
                Result::Ok(ps) => match dec_leb(ps.1, 5) {
                    Option::None => Err(MutationError::DecodeError),
                    Option::Some(nr) => match dec_types(nr.1, nr.0) {
                        Result::Err(e) => Err(e),
                        Result::Ok(rs) => Ok(
                            (SigV { params: ps.0, results: rs.0 }, rs.1),
                        ),
                    },
                },
            },
        }
    }
}

/// Reads `n` function-type records from the front of `b`.
pub open spec fn dec_sigs(b: Seq<u8>, n: nat) -> Result<(Seq<SigV>, Seq<u8>), MutationError>
    decreases n,
{
    if n == 0 {
        Ok((Seq::empty(), b))
    } else {
        match dec_sig(b) {
            Result::Err(e) => Err(e),
            Result::Ok(sr) => match dec_sigs(sr.1, (n - 1) as nat) {
                Result::Err(e) => Err(e),
                Result::Ok(lr) => Ok((seq![sr.0] + lr.0, lr.1)),
            },
        }
    }
}

/// Reads a whole section: the count, that many records, and nothing
/// after them.
pub open spec fn dec_table(b: Seq<u8>) -> Result<Seq<SigV>, MutationError> {
    match dec_leb(b, 5) {
        Option::None => Err(MutationError::DecodeError),
        Option::Some(nc) => match dec_sigs(nc.1, nc.0) {
            Result::Err(e) => Err(e),
            Result::Ok(lr) => if lr.1.len() == 0 {
                Ok(lr.0)
            } else {
                Err(MutationError::DecodeError)
            },
        },
    }
}

/// A decoded list of tags has exactly the requested length.
pub proof fn lemma_dec_types_len(b: Seq<u8>, n: nat)
    requires
        dec_types(b, n) is Ok,
    ensures
        dec_types(b, n)->Ok_0.0.len() == n,
    decreases n,
{
    if n > 0 {
        lemma_dec_types_len(b.skip(1), (n - 1) as nat);
    }
}

/// A decoded signature is encodable again: both counts came from 32-bit
/// prefixes.
pub proof fn lemma_dec_sig_valid(b: Seq<u8>)
    requires
        dec_sig(b) is Ok,
    ensures
        sig_valid(dec_sig(b)->Ok_0.0),
{
    lemma_leb_max_5();
    let np = dec_leb(b.skip(1), 5).unwrap();
    lemma_dec_leb_bound(b.skip(1), 5);
    lemma_dec_types_len(np.1, np.0);
    let ps = dec_types(np.1, np.0)->Ok_0;
    lemma_dec_leb_bound(ps.1, 5);
    let nr = dec_leb(ps.1, 5).unwrap();
    lemma_dec_types_len(nr.1, nr.0);
}

/// A decoded list of records has the requested length and only
/// encodable entries.
pub proof fn lemma_dec_sigs_valid(b: Seq<u8>, n: nat)
    requires
        dec_sigs(b, n) is Ok,
    ensures
        dec_sigs(b, n)->Ok_0.0.len() == n,
        forall|i: int| 0 <= i < n ==> sig_valid(#[trigger] dec_sigs(b, n)->Ok_0.0[i]),
    decreases n,
{
    if n > 0 {
        lemma_dec_sig_valid(b);
        let sr = dec_sig(b)->Ok_0;
        lemma_dec_sigs_valid(sr.1, (n - 1) as nat);
    }
}

/// Whatever a section decodes to can be encoded again.
pub proof fn lemma_dec_table_valid(b: Seq<u8>)
    requires
        dec_table(b) is Ok,
    ensures
        table_valid(dec_table(b)->Ok_0),
{
    lemma_leb_max_5();
    lemma_dec_leb_bound(b, 5);
    let nc = dec_leb(b, 5).unwrap();
    lemma_dec_sigs_valid(nc.1, nc.0);
}

/// Appending the record of one more signature extends the byte stream
/// on the right.
pub proof fn lemma_enc_sigs_push(l: Seq<SigV>, s: SigV)
    ensures
        enc_sigs(l.push(s)) == enc_sigs(l) + enc_sig(s),
    decreases l.len(),
{
    if l.len() == 0 {
        assert(l.push(s)[0] == s);
        assert(l.push(s).skip(1) =~= Seq::<SigV>::empty());
        assert(enc_sigs(Seq::<SigV>::empty()) =~= Seq::<u8>::empty());
        assert(enc_sigs(l.push(s)) =~= enc_sig(s) + Seq::<u8>::empty());
        assert(enc_sigs(l) + enc_sig(s) =~= enc_sigs(l.push(s)));
    } else {
        assert(l.push(s)[0] == l[0]);
        assert(l.push(s).skip(1) =~= l.skip(1).push(s));
        lemma_enc_sigs_push(l.skip(1), s);
        assert(enc_sig(l[0]) + (enc_sigs(l.skip(1)) + enc_sig(s)) =~= (enc_sig(l[0]) + enc_sigs(
            l.skip(1),
        )) + enc_sig(s));
    }
}

/// Decoding undoes encoding for a list of value-type tags.
pub proof fn lemma_types_round_trip(ts: Seq<ValType>, tail: Seq<u8>)
    ensures
        dec_types(enc_types(ts) + tail, ts.len()) == Ok::<_, MutationError>((ts, tail)),
    decreases ts.len(),
{
    let b = enc_types(ts) + tail;
    if ts.len() == 0 {
        assert(b =~= tail);
        assert(ts =~= Seq::<ValType>::empty());
    } else {
        assert(b[0] == spec_tag_of(ts[0]));
        assert(spec_valtype_of_tag(b[0]) == Some(ts[0]));
        lemma_types_round_trip(ts.skip(1), tail);
        assert(b.skip(1) =~= enc_types(ts.skip(1)) + tail);
        let tr = dec_types(b.skip(1), (ts.len() - 1) as nat)->Ok_0;
        assert(seq![ts[0]] + tr.0 =~= ts);
    }
}

/// Decoding undoes encoding for one record.
pub proof fn lemma_sig_round_trip(s: SigV, tail: Seq<u8>)
    requires
        sig_valid(s),
    ensures
        dec_sig(enc_sig(s) + tail) == Ok::<_, MutationError>((s, tail)),
{
    lemma_leb_max_5();
    let b = enc_sig(s) + tail;
    let tail1 = enc_types(s.params) + enc_leb(s.results.len()) + enc_types(s.results) + tail;
    let tail2 = enc_leb(s.results.len()) + enc_types(s.results) + tail;
    let tail3 = enc_types(s.results) + tail;
    assert(b[0] == FUNC_TYPE_TAG);
    assert(b.skip(1) =~= enc_leb(s.params.len()) + tail1);
    lemma_leb_round_trip(s.params.len(), 5, tail1);
    assert(tail1 =~= enc_types(s.params) + tail2);
    lemma_types_round_trip(s.params, tail2);
    assert(tail2 =~= enc_leb(s.results.len()) + tail3);
    lemma_leb_round_trip(s.results.len(), 5, tail3);
    lemma_types_round_trip(s.results, tail);
    assert(dec_sig(b)->Ok_0.0 =~= s);
}

/// Decoding undoes encoding for a list of records.
pub proof fn lemma_sigs_round_trip(l: Seq<SigV>, tail: Seq<u8>)
    requires
        forall|i: int| 0 <= i < l.len() ==> sig_valid(#[trigger] l[i]),
    ensures
        dec_sigs(enc_sigs(l) + tail, l.len()) == Ok::<_, MutationError>((l, tail)),
    decreases l.len(),
{
    let b = enc_sigs(l) + tail;
    if l.len() == 0 {
        assert(b =~= tail);
        assert(l =~= Seq::<SigV>::empty());
    } else {
        assert(b =~= enc_sig(l[0]) + (enc_sigs(l.skip(1)) + tail));
        lemma_sig_round_trip(l[0], enc_sigs(l.skip(1)) + tail);
        lemma_sigs_round_trip(l.skip(1), tail);
        let lr = dec_sigs(enc_sigs(l.skip(1)) + tail, (l.len() - 1) as nat)->Ok_0;
        assert(seq![l[0]] + lr.0 =~= l);
    }
}

/// The round-trip law: any table of supported value types, encoded and
/// decoded again, comes back as the same ordered list of signatures.
pub proof fn lemma_table_round_trip(l: Seq<SigV>)
    requires
        table_valid(l),
    ensures
        dec_table(enc_table(l)) == Ok::<_, MutationError>(l),
{
    lemma_leb_max_5();
    let b = enc_table(l);
    lemma_leb_round_trip(l.len(), 5, enc_sigs(l));
    assert(enc_sigs(l) =~= enc_sigs(l) + Seq::<u8>::empty());
    lemma_sigs_round_trip(l, Seq::<u8>::empty());
}

/// Folds the tags read so far into the result of reading the rest.
pub open spec fn acc_step<T>(
    r: Result<(Seq<T>, Seq<u8>), MutationError>,
    acc: Seq<T>,
) -> Result<(Seq<T>, Seq<u8>), MutationError> {
    match r {
        Result::Ok(tr) => Ok((acc + tr.0, tr.1)),
        Result::Err(e) => Err(e),
    }
}

/// Reads `n` value-type tags starting at `pos`.
fn read_types(bytes: &Vec<u8>, pos: usize, n: u32) -> (r: Result<
    (Vec<ValType>, usize),
    MutationError,
>)
    requires
        pos <= bytes@.len(),
    ensures
        (match r {
            Ok(tp) => {
                &&& pos <= tp.1 <= bytes@.len()
                &&& dec_types(bytes@.skip(pos as int), n as nat) == Ok::<_, MutationError>(
                    (tp.0@, bytes@.skip(tp.1 as int)),
                )
            },
            Err(e) => dec_types(bytes@.skip(pos as int), n as nat) == Err::<
                (Seq<ValType>, Seq<u8>),
                _,
            >(e),
        }),
{
    let mut acc: Vec<ValType> = Vec::new();
    let mut cur: usize = pos;
    let mut i: u32 = 0;
    while i < n
        invariant
            pos <= cur <= bytes@.len(),
            i <= n,
            dec_types(bytes@.skip(pos as int), n as nat) == acc_step(
                dec_types(bytes@.skip(cur as int), (n - i) as nat),
                acc@,
            ),
        decreases n - i,
    {
        let ghost acc0 = acc@;
        if cur >= bytes.len() {
            return Err(MutationError::DecodeError);
        }
        let tagb = bytes[cur];
        assert(bytes@.skip(cur as int)[0] == tagb);
        match ValType::from_tag(tagb) {
            None => {
                return Err(MutationError::UnsupportedConstruct);
            },
            Some(t) => {
                acc.push(t);
                proof {
                    assert(bytes@.skip(cur as int).skip(1) =~= bytes@.skip(cur as int + 1));
                }
                cur = cur + 1;
                i = i + 1;
                proof {
                    let rest = dec_types(bytes@.skip(cur as int), (n - i) as nat);
                    if rest is Ok {
                        assert(acc0 + (seq![t] + rest->Ok_0.0) =~= acc@ + rest->Ok_0.0);
                    }
                }
            },
        }
    }
    assert(acc@ + Seq::<ValType>::empty() =~= acc@);
    Ok((acc, cur))
}

/// Reads one function-type record starting at `pos`.
fn read_sig(bytes: &Vec<u8>, pos: usize) -> (r: Result<(FunctionSignature, usize), MutationError>)
    requires
        pos <= bytes@.len(),
    ensures
        (match r {
            Ok(sp) => {
                &&& pos <= sp.1 <= bytes@.len()
                &&& dec_sig(bytes@.skip(pos as int)) == Ok::<_, MutationError>(
                    (sp.0@, bytes@.skip(sp.1 as int)),
                )
            },
            Err(e) => dec_sig(bytes@.skip(pos as int)) == Err::<(SigV, Seq<u8>), _>(e),
        }),
{
    if pos >= bytes.len() {
        return Err(MutationError::DecodeError);
    }
    let form = bytes[pos];
    assert(bytes@.skip(pos as int)[0] == form);
    if form != FUNC_TYPE_TAG {
        return Err(MutationError::UnsupportedConstruct);
    }
    proof {
        assert(bytes@.skip(pos as int).skip(1) =~= bytes@.skip(pos as int + 1));
    }
    let (np, p1) = match read_leb(bytes, pos + 1) {
        Ok(x) => x,
        Err(e) => {
            return Err(e);
        },
    };
    let (params, p2) = match read_types(bytes, p1, np) {
        Ok(x) => x,
        Err(e) => {
            return Err(e);
        },
    };
    let (nr, p3) = match read_leb(bytes, p2) {
        Ok(x) => x,
        Err(e) => {
            return Err(e);
        },
    };
    let (results, p4) = match read_types(bytes, p3, nr) {
        Ok(x) => x,
        Err(e) => {
            return Err(e);
        },
    };
    let s = FunctionSignature { params, results };
    Ok((s, p4))
}

/// Parses the raw bytes of a type section into its ordered list of
/// signatures. Strictly read-only; fails on truncated or inconsistent
/// bytes with `DecodeError` and on any record or element tag outside
/// the supported domain with `UnsupportedConstruct`.
pub fn decode_type_section(bytes: &Vec<u8>) -> (r: Result<Vec<FunctionSignature>, MutationError>)
    ensures
        (match r {
            Ok(sigs) => dec_table(bytes@) == Ok::<_, MutationError>(table_view(sigs@)),
            Err(e) => dec_table(bytes@) == Err::<Seq<SigV>, _>(e),
        }),
{
    assert(bytes@.skip(0) =~= bytes@);
    let (count, start) = match read_leb(bytes, 0) {
        Ok(x) => x,
        Err(e) => {
            return Err(e);
        },
    };
    let mut acc: Vec<FunctionSignature> = Vec::new();
    let mut cur: usize = start;
    let mut i: u32 = 0;
    while i < count
        invariant
            cur <= bytes@.len(),
            i <= count,
            dec_leb(bytes@, 5) == Some((count as nat, bytes@.skip(start as int))),
            dec_sigs(bytes@.skip(start as int), count as nat) == acc_step(
                dec_sigs(bytes@.skip(cur as int), (count - i) as nat),
                table_view(acc@),
            ),
        decreases count - i,
    {
        let ghost acc0 = table_view(acc@);
        match read_sig(bytes, cur) {
            Err(e) => {
                return Err(e);
            },
            Ok((s, p)) => {
                acc.push(s);
                cur = p;
                i = i + 1;
                proof {
                    assert(table_view(acc@) =~= acc0.push(acc@[acc@.len() - 1]@));
                    let rest = dec_sigs(bytes@.skip(cur as int), (count - i) as nat);
                    if rest is Ok {
                        assert(acc0 + (seq![acc@[acc@.len() - 1]@] + rest->Ok_0.0) =~= table_view(
                            acc@,
                        ) + rest->Ok_0.0);
                    }
                }
            },
        }
    }
    assert(table_view(acc@) + Seq::<SigV>::empty() =~= table_view(acc@));
    if cur != bytes.len() {
        return Err(MutationError::DecodeError);
    }
    Ok(acc)
}

/// Appends the tag bytes of a list of value types.
fn write_types(ts: &Vec<ValType>, out: &mut Vec<u8>)
    ensures
        final(out)@ == old(out)@ + enc_types(ts@),
{
    let ghost base = old(out)@;
    let mut i: usize = 0;
    while i < ts.len()
        invariant
            i <= ts@.len(),
            out@ =~= base + enc_types(ts@.take(i as int)),
        decreases ts@.len() - i,
    {
        let t = ts[i];
        out.push(t.tag());
        i = i + 1;
        proof {
            assert(enc_types(ts@.take(i as int)) =~= enc_types(ts@.take(i - 1)).push(
                spec_tag_of(ts@[i - 1]),
            ));
            assert(out@ =~= base + enc_types(ts@.take(i as int)));
        }
    }
    proof {
        assert(ts@.take(ts@.len() as int) =~= ts@);
    }
}

/// Appends the record of one signature.
fn write_sig(s: &FunctionSignature, out: &mut Vec<u8>)
    requires
        sig_valid(s@),
    ensures
        final(out)@ == old(out)@ + enc_sig(s@),
{
    let ghost base = old(out)@;
    out.push(FUNC_TYPE_TAG);
    write_leb(s.params.len() as u32, out);
    write_types(&s.params, out);
    write_leb(s.results.len() as u32, out);
    write_types(&s.results, out);
    proof {
        assert(out@ =~= base + enc_sig(s@));
    }
}

/// Serializes a list of signatures into section bytes: the entry count
/// followed by one record per signature, in order. The structural
/// inverse of `decode_type_section` for the supported domain.
pub fn encode_type_section(types: &Vec<FunctionSignature>) -> (out: Vec<u8>)
    requires
        table_valid(table_view(types@)),
    ensures
        out@ == enc_table(table_view(types@)),
{
    let mut out: Vec<u8> = Vec::new();
    write_leb(types.len() as u32, &mut out);
    let ghost base = out@;
    let mut i: usize = 0;
    while i < types.len()
        invariant
            i <= types@.len(),
            table_valid(table_view(types@)),
            base == enc_leb(types@.len()),
            out@ =~= base + enc_sigs(table_view(types@.take(i as int))),
        decreases types@.len() - i,
    {
        assert(sig_valid(types@[i as int]@)) by {
            assert(table_view(types@)[i as int] == types@[i as int]@);
        }
        write_sig(&types[i], &mut out);
        i = i + 1;
        proof {
            assert(table_view(types@.take(i as int)) =~= table_view(types@.take(i - 1)).push(
                types@[i - 1]@,
            ));
            lemma_enc_sigs_push(table_view(types@.take(i - 1)), types@[i - 1]@);
            assert(out@ =~= base + enc_sigs(table_view(types@.take(i as int))));
        }
    }
    proof {
        assert(types@.take(types@.len() as int) =~= types@);
        assert(table_view(types@) == table_view(types@.take(types@.len() as int)));
    }
    out
}

} // verus!
