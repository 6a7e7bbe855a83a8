//! The binary encoding of messages.
//!
//! A message is its header, three bytes (version, sender, receiver), then its
//! payload: a one-byte type (share package 0, signing commitments 1, signing
//! package 2, signature share 3, aggregate signature 4) and the payload's fields
//! in order. Participants are one byte each; points and scalars are their 32
//! bytes; a sequence is its length as eight little-endian bytes, then its items.
use vstd::prelude::*;

use super::constants::{AGGREGATOR_PARTICIPANT_ID, DEALER_PARTICIPANT_ID, MAX_SIGNER_PARTICIPANT_ID};
use super::{
    AggregateSignature, Commitment, GroupCommitment, Header, Message, MsgVersion, ParticipantId, Payload, Secret,
    SharePackage, SignatureResponse, SignatureShare, SigningCommitments, SigningPackage,
};
use crate::scalar::le_nat;
use crate::VerificationKeyBytes;

verus! {

/// The byte of a participant.
pub open spec fn participant_byte(p: ParticipantId) -> u8 {
    match p {
        ParticipantId::Signer(k) => k,
        ParticipantId::Dealer => DEALER_PARTICIPANT_ID,
        ParticipantId::Aggregator => AGGREGATOR_PARTICIPANT_ID,
    }
}

/// The participant of a byte.
pub open spec fn participant_of_byte(b: u8) -> ParticipantId {
    if b == DEALER_PARTICIPANT_ID {
        ParticipantId::Dealer
    } else if b == AGGREGATOR_PARTICIPANT_ID {
        ParticipantId::Aggregator
    } else {
        ParticipantId::Signer(b)
    }
}

impl ParticipantId {
    /// The byte that stands for this participant.
    pub fn to_byte(&self) -> (r: u8)
        ensures
            r == participant_byte(*self),
    {
        match self {
            ParticipantId::Signer(k) => *k,
            ParticipantId::Dealer => DEALER_PARTICIPANT_ID,
            ParticipantId::Aggregator => AGGREGATOR_PARTICIPANT_ID,
        }
    }

    /// The participant that a byte stands for.
    pub fn from_byte(b: u8) -> (r: ParticipantId)
        ensures
            r == participant_of_byte(b),
            r.wf(),
    {
        if b == DEALER_PARTICIPANT_ID {
            ParticipantId::Dealer
        } else if b == AGGREGATOR_PARTICIPANT_ID {
            ParticipantId::Aggregator
        } else {
            ParticipantId::Signer(b)
        }
    }
}

/// Every participant's byte stands for it, and every byte stands for a participant
/// whose byte it is.
pub proof fn lemma_participant_byte_round_trip(p: ParticipantId, b: u8)
    requires
        p.wf(),
    ensures
        participant_of_byte(participant_byte(p)) == p,
        participant_byte(participant_of_byte(b)) == b,
{
}

/// The `k` little-endian bytes of `n`.
pub open spec fn le_fixed(n: nat, k: nat) -> Seq<u8>
    decreases k,
{
    if k == 0 {
        Seq::empty()
    } else {
        seq![(n % 256) as u8] + le_fixed(n / 256, (k - 1) as nat)
    }
}

/// The length prefix of a sequence of `n` items.
pub open spec fn length_prefix(n: nat) -> Seq<u8> {
    le_fixed(n, 8)
}

/// The concatenation of the 32-byte encodings of commitments.
pub open spec fn commitments_encoding(cs: Seq<Commitment>) -> Seq<u8>
    decreases cs.len(),
{
    if cs.len() == 0 {
        Seq::empty()
    } else {
        commitments_encoding(cs.drop_last()) + cs.last().0@
    }
}

/// The encodings of a signer's commitments: its byte, then the two points.
pub open spec fn signer_commitments_encoding(cs: Seq<(ParticipantId, SigningCommitments)>) -> Seq<u8>
    decreases cs.len(),
{
    if cs.len() == 0 {
        Seq::empty()
    } else {
        signer_commitments_encoding(cs.drop_last()) + seq![participant_byte(cs.last().0)]
            + cs.last().1.hiding.0@ + cs.last().1.binding.0@
    }
}

proof fn lemma_commitments_encoding_len(cs: Seq<Commitment>)
    ensures
        commitments_encoding(cs).len() == 32 * cs.len(),
    decreases cs.len(),
{
    if cs.len() > 0 {
        lemma_commitments_encoding_len(cs.drop_last());
    }
}

proof fn lemma_signer_commitments_encoding_len(cs: Seq<(ParticipantId, SigningCommitments)>)
    ensures
        signer_commitments_encoding(cs).len() == 65 * cs.len(),
    decreases cs.len(),
{
    if cs.len() > 0 {
        lemma_signer_commitments_encoding_len(cs.drop_last());
    }
}

/// Whether the bytes of `b` at `pos` begin with the encoding of `p`.
pub open spec fn encodes_at(b: Seq<u8>, pos: int, p: Payload) -> bool {
    &&& pos + payload_encoding(p).len() <= b.len()
    &&& b.subrange(pos, pos + payload_encoding(p).len()) == payload_encoding(p)
}

/// The encoding of a payload.
pub open spec fn payload_encoding(p: Payload) -> Seq<u8> {
    match p {
        Payload::SharePackage(sp) => seq![0u8] + sp.group_public.bytes@ + sp.secret_share.0@
            + length_prefix(sp.share_commitment@.len()) + commitments_encoding(sp.share_commitment@),
        Payload::SigningCommitments(sc) => seq![1u8] + sc.hiding.0@ + sc.binding.0@,
        Payload::SigningPackage(sp) => seq![2u8] + length_prefix(sp.signing_commitments@.len())
            + signer_commitments_encoding(sp.signing_commitments@) + length_prefix(sp.message@.len()) + sp.message@,
        Payload::SignatureShare(ss) => seq![3u8] + ss.signature.0@,
        Payload::AggregateSignature(a) => seq![4u8] + a.group_commitment.0@ + a.schnorr_signature.0@,
    }
}

/// The encoding of a header.
pub open spec fn header_encoding(h: Header) -> Seq<u8> {
    seq![h.version.0, participant_byte(h.sender), participant_byte(h.receiver)]
}

/// The encoding of a message.
pub open spec fn message_encoding(m: Message) -> Seq<u8> {
    header_encoding(m.header) + payload_encoding(m.payload)
}

impl Message {
    /// Every participant named in the message is one that a byte can stand for.
    pub open spec fn wf(&self) -> bool {
        &&& self.header.sender.wf()
        &&& self.header.receiver.wf()
        &&& self.payload matches Payload::SigningPackage(sp) ==> forall|k: int|
            0 <= k < sp.signing_commitments@.len() ==> (#[trigger] sp.signing_commitments@[k]).0.wf()
    }
}

fn push_all(out: &mut Vec<u8>, data: &[u8])
    ensures
        final(out)@ == old(out)@ + data@,
{
    crate::hash::append_bytes(out, data);
}

fn push_length(out: &mut Vec<u8>, n: usize)
    ensures
        final(out)@ == old(out)@ + length_prefix(n as nat),
{
    let mut v: usize = n;
    let mut k: usize = 0;
    let ghost start = out@;
    while k < 8
        invariant
            k <= 8,
            out@ + le_fixed(v as nat, (8 - k) as nat) == start + le_fixed(n as nat, 8),
        decreases 8 - k,
    {
        let ghost before = out@;
        let ghost old_v = v;
        let ghost rest = (8 - k - 1) as nat;
        out.push((v % 256) as u8);
        v = v / 256;
        k = k + 1;
        proof {
            assert(le_fixed(old_v as nat, (rest + 1) as nat) == seq![(old_v % 256) as u8] + le_fixed((old_v / 256) as nat, rest));
            assert(out@ + le_fixed(v as nat, rest) =~= before + (seq![(old_v % 256) as u8] + le_fixed(v as nat, rest)));
        }
    }
    proof {
        assert(le_fixed(v as nat, 0) =~= Seq::<u8>::empty());
        assert(out@ =~= out@ + le_fixed(v as nat, 0));
    }
}

fn push_commitments(out: &mut Vec<u8>, cs: &Vec<Commitment>)
    ensures
        final(out)@ == old(out)@ + commitments_encoding(cs@),
{
    let ghost start = out@;
    let mut i: usize = 0;
    proof {
        assert(cs@.subrange(0, 0) =~= Seq::<Commitment>::empty());
        assert(out@ =~= start + commitments_encoding(cs@.subrange(0, 0)));
    }
    while i < cs.len()
        invariant
            i <= cs@.len(),
            out@ == start + commitments_encoding(cs@.subrange(0, i as int)),
        decreases cs@.len() - i,
    {
        push_all(out, &cs[i].0);
        i = i + 1;
        proof {
            assert(cs@.subrange(0, i as int).drop_last() =~= cs@.subrange(0, i - 1));
            assert(out@ =~= start + commitments_encoding(cs@.subrange(0, i as int)));
        }
    }
    proof {
        assert(cs@.subrange(0, cs@.len() as int) =~= cs@);
    }
}

fn push_signer_commitments(out: &mut Vec<u8>, cs: &Vec<(ParticipantId, SigningCommitments)>)
    ensures
        final(out)@ == old(out)@ + signer_commitments_encoding(cs@),
{
    let ghost start = out@;
    let mut i: usize = 0;
    proof {
        assert(cs@.subrange(0, 0) =~= Seq::<(ParticipantId, SigningCommitments)>::empty());
        assert(out@ =~= start + signer_commitments_encoding(cs@.subrange(0, 0)));
    }
    while i < cs.len()
        invariant
            i <= cs@.len(),
            out@ == start + signer_commitments_encoding(cs@.subrange(0, i as int)),
        decreases cs@.len() - i,
    {
        out.push(cs[i].0.to_byte());
        push_all(out, &cs[i].1.hiding.0);
        push_all(out, &cs[i].1.binding.0);
        i = i + 1;
        proof {
            assert(cs@.subrange(0, i as int).drop_last() =~= cs@.subrange(0, i - 1));
            assert(out@ =~= start + signer_commitments_encoding(cs@.subrange(0, i as int)));
        }
    }
    proof {
        assert(cs@.subrange(0, cs@.len() as int) =~= cs@);
    }
}

impl Message {
    /// The bytes of this message.
    pub fn encode(&self) -> (r: Vec<u8>)
        ensures
            r@ == message_encoding(*self),
    {
        let mut out: Vec<u8> = Vec::new();
        out.push(self.header.version.0);
        out.push(self.header.sender.to_byte());
        out.push(self.header.receiver.to_byte());
        let ghost head = out@;
        proof {
            assert(head =~= header_encoding(self.header));
        }
        match &self.payload {
            Payload::SharePackage(sp) => {
                out.push(0u8);
                push_all(&mut out, &sp.group_public.bytes);
                push_all(&mut out, &sp.secret_share.0);
                push_length(&mut out, sp.share_commitment.len());
                push_commitments(&mut out, &sp.share_commitment);
            },
            Payload::SigningCommitments(sc) => {
                out.push(1u8);
                push_all(&mut out, &sc.hiding.0);
                push_all(&mut out, &sc.binding.0);
            },
            Payload::SigningPackage(sp) => {
                out.push(2u8);
                push_length(&mut out, sp.signing_commitments.len());
                push_signer_commitments(&mut out, &sp.signing_commitments);
                push_length(&mut out, sp.message.len());
                push_all(&mut out, sp.message.as_slice());
            },
            Payload::SignatureShare(ss) => {
                out.push(3u8);
                push_all(&mut out, &ss.signature.0);
            },
            Payload::AggregateSignature(a) => {
                out.push(4u8);
                push_all(&mut out, &a.group_commitment.0);
                push_all(&mut out, &a.schnorr_signature.0);
            },
        }
        proof {
            assert(out@ =~= head + payload_encoding(self.payload));
        }
        out
    }
}

/// The 32 bytes of `b` at `pos`, if there are that many.
fn read_32(b: &[u8], pos: usize) -> (r: Option<[u8; 32]>)
    ensures
        r is Some <==> pos + 32 <= b@.len(),
        r matches Some(a) ==> a@ == b@.subrange(pos as int, pos + 32),
{
    if pos > b.len() || b.len() - pos < 32 {
        return None;
    }
    let mut a = [0u8; 32];
    let mut i: usize = 0;
    let blen = b.len();
    while i < 32
        invariant
            blen == b@.len(),
            pos + 32 <= b@.len(),
            i <= 32,
            forall|j: int| 0 <= j < i ==> a@[j] == b@[pos + j],
        decreases 32 - i,
    {
        a[i] = b[pos + i];
        i = i + 1;
    }
    proof {
        assert(a@ =~= b@.subrange(pos as int, pos + 32));
    }
    Some(a)
}

/// 256 to the power `k`.
pub open spec fn pow256(k: nat) -> nat
    decreases k,
{
    if k == 0 {
        1
    } else {
        256 * pow256((k - 1) as nat)
    }
}

pub(crate) proof fn lemma_le_nat_of_le_fixed(n: nat, k: nat)
    ensures
        le_nat(le_fixed(n, k)) == n % pow256(k),
        le_fixed(n, k).len() == k,
    decreases k,
{
    if k > 0 {
        lemma_le_nat_of_le_fixed(n / 256, (k - 1) as nat);
        let s = le_fixed(n, k);
        assert(s.drop_first() =~= le_fixed(n / 256, (k - 1) as nat));
        let p = pow256((k - 1) as nat);
        assert(p > 0) by {
            lemma_pow256_positive((k - 1) as nat);
        }
        vstd::arithmetic::div_mod::lemma_fundamental_div_mod(n as int, 256);
        vstd::arithmetic::div_mod::lemma_mod_breakdown(n as int, 256, p as int);
    }
}

proof fn lemma_pow256_positive(k: nat)
    ensures
        pow256(k) > 0,
    decreases k,
{
    if k > 0 {
        lemma_pow256_positive((k - 1) as nat);
    }
}

proof fn lemma_le_fixed_of_le_nat(b: Seq<u8>)
    ensures
        le_fixed(le_nat(b), b.len()) == b,
    decreases b.len(),
{
    if b.len() > 0 {
        lemma_le_fixed_of_le_nat(b.drop_first());
        let n = le_nat(b);
        let r = le_nat(b.drop_first());
        vstd::arithmetic::div_mod::lemma_fundamental_div_mod_converse(n as int, 256, r as int, b[0] as int);
        assert(le_fixed(n, b.len()) =~= b);
    }
}

/// The length that the eight bytes of `b` at `pos` encode, if there are eight bytes
/// and the length fits in a `usize`.
fn read_length(b: &[u8], pos: usize) -> (r: Option<usize>)
    ensures
        r is Some ==> pos + 8 <= b@.len(),
        r matches Some(n) ==> length_prefix(n as nat) == b@.subrange(pos as int, pos + 8),
        forall|n: usize| pos + 8 <= b@.len() && #[trigger] length_prefix(n as nat) == b@.subrange(pos as int, pos + 8)
            ==> r == Some(n),
{
    if pos > b.len() || b.len() - pos < 8 {
        return None;
    }
    let mut v: u64 = 0;
    let mut i: usize = 8;
    let blen = b.len();
    proof {
        assert(b@.subrange(pos + 8, pos + 8) =~= Seq::<u8>::empty());
        reveal_with_fuel(pow256, 9);
        assert(pow256(7) == 0x100000000000000);
        assert(pow256(8) == 0x10000000000000000);
    }
    while i > 0
        invariant
            blen == b@.len(),
            pos + 8 <= b@.len(),
            i <= 8,
            v as nat == le_nat(b@.subrange(pos + i, pos + 8)),
            v < pow256((8 - i) as nat),
            pow256(7) == 0x100000000000000,
        decreases i,
    {
        let c = b[pos + i - 1];
        let ghost rest = b@.subrange(pos + i, pos + 8);
        proof {
            let s = b@.subrange(pos + i - 1, pos + 8);
            assert(s.drop_first() =~= rest);
            assert(s[0] == c);
            assert(pow256((8 - i) as nat) <= pow256(7)) by {
                lemma_pow256_mono((8 - i) as nat, 7);
            }
            assert(v * 256 + c < 0x10000000000000000) by (nonlinear_arith)
                requires
                    v < 0x100000000000000,
                    c < 256,
            ;
            assert(v * 256 + c < 256 * pow256((8 - i) as nat)) by (nonlinear_arith)
                requires
                    v < pow256((8 - i) as nat),
                    c < 256,
            ;
        }
        v = v * 256 + c as u64;
        i = i - 1;
    }
    proof {
        assert(b@.subrange(pos + 0, pos + 8) =~= b@.subrange(pos as int, pos + 8));
        lemma_le_fixed_of_le_nat(b@.subrange(pos as int, pos + 8));
        assert forall|n: usize| #[trigger] length_prefix(n as nat) == b@.subrange(pos as int, pos + 8) implies v == n by {
            lemma_le_nat_of_le_fixed(n as nat, 8);
            reveal_with_fuel(pow256, 9);
            vstd::arithmetic::div_mod::lemma_small_mod(n as nat, pow256(8));
        }
    }
    if v > usize::MAX as u64 {
        return None;
    }
    Some(v as usize)
}

pub(crate) proof fn lemma_pow256_mono(a: nat, b: nat)
    requires
        a <= b,
    ensures
        pow256(a) <= pow256(b),
    decreases b,
{
    if a < b {
        lemma_pow256_mono(a, (b - 1) as nat);
        lemma_pow256_positive((b - 1) as nat);
    }
}

/// The commitments at `pos`: `count` points, if there are that many bytes.
fn read_commitments(b: &[u8], pos: usize, count: usize) -> (r: Option<(Vec<Commitment>, usize)>)
    requires
        pos <= b@.len(),
    ensures
        r matches Some((cs, end)) ==> pos <= end <= b@.len() && cs@.len() == count && end == pos + 32 * count
            && commitments_encoding(cs@) == b@.subrange(pos as int, end as int),
        pos + 32 * count <= b@.len() ==> r is Some,
{
    let mut cs: Vec<Commitment> = Vec::new();
    let mut at: usize = pos;
    let mut i: usize = 0;
    proof {
        assert(b@.subrange(pos as int, pos as int) =~= Seq::<u8>::empty());
    }
    let blen = b.len();
    while i < count
        invariant
            blen == b@.len(),
            pos <= at <= b@.len(),
            at == pos + 32 * i,
            i <= count,
            cs@.len() == i,
            commitments_encoding(cs@) == b@.subrange(pos as int, at as int),
        decreases count - i,
    {
        let a = match read_32(b, at) {
            Some(a) => a,
            None => return None,
        };
        let ghost before = cs@;
        cs.push(Commitment(a));
        proof {
            assert(cs@.drop_last() =~= before);
            assert(b@.subrange(pos as int, at + 32) =~= b@.subrange(pos as int, at as int) + b@.subrange(at as int, at + 32));
        }
        at = at + 32;
        i = i + 1;
    }
    Some((cs, at))
}

/// The signers' commitments at `pos`: `count` of them, if there are that many bytes.
fn read_signer_commitments(b: &[u8], pos: usize, count: usize) -> (r: Option<(Vec<(ParticipantId, SigningCommitments)>, usize)>)
    requires
        pos <= b@.len(),
    ensures
        pos + 65 * count <= b@.len() ==> r is Some,
        r matches Some((cs, end)) ==> pos <= end <= b@.len() && cs@.len() == count && end == pos + 65 * count
            && (forall|k: int| 0 <= k < cs@.len() ==> (#[trigger] cs@[k]).0.wf())
            && signer_commitments_encoding(cs@) == b@.subrange(pos as int, end as int),
{
    let mut cs: Vec<(ParticipantId, SigningCommitments)> = Vec::new();
    let mut at: usize = pos;
    let mut i: usize = 0;
    proof {
        assert(b@.subrange(pos as int, pos as int) =~= Seq::<u8>::empty());
    }
    let blen = b.len();
    while i < count
        invariant
            blen == b@.len(),
            pos <= at <= b@.len(),
            at == pos + 65 * i,
            i <= count,
            cs@.len() == i,
            forall|k: int| 0 <= k < cs@.len() ==> (#[trigger] cs@[k]).0.wf(),
            signer_commitments_encoding(cs@) == b@.subrange(pos as int, at as int),
        decreases count - i,
    {
        if at >= b.len() {
            return None;
        }
        let id = ParticipantId::from_byte(b[at]);
        let hiding = match read_32(b, at + 1) {
            Some(a) => a,
            None => return None,
        };
        let binding = match read_32(b, at + 33) {
            Some(a) => a,
            None => return None,
        };
        let ghost before = cs@;
        cs.push((id, SigningCommitments { hiding: Commitment(hiding), binding: Commitment(binding) }));
        proof {
            lemma_participant_byte_round_trip(id, b@[at as int]);
            assert(cs@.drop_last() =~= before);
            assert(b@.subrange(pos as int, at + 65) =~= b@.subrange(pos as int, at as int) + seq![b@[at as int]]
                + b@.subrange(at + 1, at + 33) + b@.subrange(at + 33, at + 65));
        }
        at = at + 65;
        i = i + 1;
    }
    Some((cs, at))
}

/// The payload at `pos`, and where it ends. When the bytes there begin with the
/// encoding of `expected`, that is read, whole.
#[verifier::rlimit(60)]
fn read_payload(b: &[u8], pos: usize, Ghost(expected): Ghost<Option<Payload>>) -> (r: Option<(Payload, usize)>)
    requires
        pos <= b@.len(),
    ensures
        r matches Some((p, end)) ==> pos <= end <= b@.len()
            && payload_encoding(p) == b@.subrange(pos as int, end as int)
            && (p matches Payload::SigningPackage(sp) ==> forall|k: int|
                0 <= k < sp.signing_commitments@.len() ==> (#[trigger] sp.signing_commitments@[k]).0.wf()),
        expected is Some && encodes_at(b@, pos as int, expected->Some_0) ==> (r matches Some((_, end))
            && end == pos + payload_encoding(expected->Some_0).len()),
{
    let ghost enc = match expected { Some(e) => payload_encoding(e), None => Seq::<u8>::empty() };
    let ghost fits = expected is Some && encodes_at(b@, pos as int, expected->Some_0);
    proof {
        if fits {
            assert(forall|k: int| 0 <= k < enc.len() ==> b@[pos + k] == #[trigger] enc[k]) by {
                assert forall|k: int| 0 <= k < enc.len() implies b@[pos + k] == #[trigger] enc[k] by {
                    assert(b@.subrange(pos as int, pos + enc.len())[k] == enc[k]);
                }
            }
            match expected {
                Some(Payload::SharePackage(sp)) => {
                    lemma_commitments_encoding_len(sp.share_commitment@);
                    lemma_le_nat_of_le_fixed(sp.share_commitment@.len(), 8);
                    assert(enc[0] == 0u8);
                    assert(enc.len() == 73 + 32 * sp.share_commitment@.len());
                },
                Some(Payload::SigningCommitments(_)) => {
                    assert(enc[0] == 1u8);
                    assert(enc.len() == 65);
                },
                Some(Payload::SigningPackage(sp)) => {
                    lemma_signer_commitments_encoding_len(sp.signing_commitments@);
                    lemma_le_nat_of_le_fixed(sp.signing_commitments@.len(), 8);
                    lemma_le_nat_of_le_fixed(sp.message@.len(), 8);
                    assert(enc[0] == 2u8);
                    assert(enc.len() == 17 + 65 * sp.signing_commitments@.len() + sp.message@.len());
                },
                Some(Payload::SignatureShare(_)) => {
                    assert(enc[0] == 3u8);
                    assert(enc.len() == 33);
                },
                Some(Payload::AggregateSignature(_)) => {
                    assert(enc[0] == 4u8);
                    assert(enc.len() == 65);
                },
                None => {},
            }
        }
    }
    if pos >= b.len() {
        return None;
    }
    let tag = b[pos];
    let at = pos + 1;
    if tag == 0 {
        let group_public = match read_32(b, at) { Some(a) => a, None => return None };
        let secret = match read_32(b, at + 32) { Some(a) => a, None => return None };
        proof {
            if fits {
                if let Some(Payload::SharePackage(sp)) = expected {
                    assert(enc.subrange(65, 73) =~= length_prefix(sp.share_commitment@.len()));
                    assert(b@.subrange(at + 64, at + 72) =~= enc.subrange(65, 73));
                }
            }
        }
        let count = match read_length(b, at + 64) { Some(n) => n, None => return None };
        let (cs, end) = match read_commitments(b, at + 72, count) { Some(x) => x, None => return None };
        let p = Payload::SharePackage(SharePackage {
            group_public: VerificationKeyBytes::from_bytes(group_public),
            secret_share: Secret(secret),
            share_commitment: cs,
        });
        proof {
            assert(b@.subrange(pos as int, end as int) =~= seq![tag] + b@.subrange(at as int, at + 32)
                + b@.subrange(at + 32, at + 64) + b@.subrange(at + 64, at + 72) + b@.subrange(at + 72, end as int));
        }
        Some((p, end))
    } else if tag == 1 {
        let hiding = match read_32(b, at) { Some(a) => a, None => return None };
        let binding = match read_32(b, at + 32) { Some(a) => a, None => return None };
        let p = Payload::SigningCommitments(SigningCommitments { hiding: Commitment(hiding), binding: Commitment(binding) });
        proof {
            assert(b@.subrange(pos as int, at + 64) =~= seq![tag] + b@.subrange(at as int, at + 32) + b@.subrange(at + 32, at + 64));
        }
        Some((p, at + 64))
    } else if tag == 2 {
        proof {
            if fits {
                if let Some(Payload::SigningPackage(sp)) = expected {
                    assert(enc.subrange(1, 9) =~= length_prefix(sp.signing_commitments@.len()));
                    assert(b@.subrange(at as int, at + 8) =~= enc.subrange(1, 9));
                }
            }
        }
        let count = match read_length(b, at) { Some(n) => n, None => return None };
        let (cs, mid) = match read_signer_commitments(b, at + 8, count) { Some(x) => x, None => return None };
        proof {
            if fits {
                if let Some(Payload::SigningPackage(sp)) = expected {
                    let n1 = sp.signing_commitments@.len() as int;
                    assert(enc.subrange(9 + 65 * n1, 17 + 65 * n1) =~= length_prefix(sp.message@.len()));
                    assert(b@.subrange(mid as int, mid + 8) =~= enc.subrange(9 + 65 * n1, 17 + 65 * n1));
                }
            }
        }
        let len = match read_length(b, mid) { Some(n) => n, None => return None };
        if b.len() - (mid + 8) < len {
            return None;
        }
        let mut message: Vec<u8> = Vec::new();
        crate::hash::append_bytes(&mut message, vstd::slice::slice_subrange(b, mid + 8, mid + 8 + len));
        let end = mid + 8 + len;
        let p = Payload::SigningPackage(SigningPackage { signing_commitments: cs, message });
        proof {
            assert(b@.subrange(pos as int, end as int) =~= seq![tag] + b@.subrange(at as int, at + 8)
                + b@.subrange(at + 8, mid as int) + b@.subrange(mid as int, mid + 8) + b@.subrange(mid + 8, end as int));
        }
        Some((p, end))
    } else if tag == 3 {
        let sig = match read_32(b, at) { Some(a) => a, None => return None };
        let p = Payload::SignatureShare(SignatureShare { signature: SignatureResponse(sig) });
        proof {
            assert(b@.subrange(pos as int, at + 32) =~= seq![tag] + b@.subrange(at as int, at + 32));
        }
        Some((p, at + 32))
    } else if tag == 4 {
        let r = match read_32(b, at) { Some(a) => a, None => return None };
        let z = match read_32(b, at + 32) { Some(a) => a, None => return None };
        let p = Payload::AggregateSignature(AggregateSignature {
            group_commitment: GroupCommitment(r),
            schnorr_signature: SignatureResponse(z),
        });
        proof {
            assert(b@.subrange(pos as int, at + 64) =~= seq![tag] + b@.subrange(at as int, at + 32) + b@.subrange(at + 32, at + 64));
        }
        Some((p, at + 64))
    } else {
        None
    }
}

impl Message {
    /// Reads a message from its bytes: it succeeds exactly on the encodings of
    /// well-formed messages, and the message read encodes to `bytes`.
    pub fn decode(bytes: &[u8]) -> (r: Option<Message>)
        ensures
            r matches Some(m) ==> m.wf() && message_encoding(m) == bytes@,
            (exists|m: Message| m.wf() && #[trigger] message_encoding(m) == bytes@) ==> r is Some,
    {
        let ghost expected = if exists|m: Message| m.wf() && #[trigger] message_encoding(m) == bytes@ {
            Some((choose|m: Message| m.wf() && #[trigger] message_encoding(m) == bytes@).payload)
        } else {
            None
        };
        proof {
            if exists|m: Message| m.wf() && #[trigger] message_encoding(m) == bytes@ {
                let m = choose|m: Message| m.wf() && #[trigger] message_encoding(m) == bytes@;
                assert(bytes@.subrange(3, bytes@.len() as int) =~= payload_encoding(m.payload));
            }
        }
        if bytes.len() < 3 {
            return None;
        }
        let header = Header {
            version: MsgVersion(bytes[0]),
            sender: ParticipantId::from_byte(bytes[1]),
            receiver: ParticipantId::from_byte(bytes[2]),
        };
        let (payload, end) = match read_payload(bytes, 3, Ghost(expected)) {
            Some(x) => x,
            None => return None,
        };
        if end != bytes.len() {
            return None;
        }
        proof {
            lemma_participant_byte_round_trip(header.sender, bytes@[1]);
            lemma_participant_byte_round_trip(header.receiver, bytes@[2]);
            assert(bytes@ =~= header_encoding(header) + bytes@.subrange(3, end as int));
        }
        Some(Message { header, payload })
    }
}

/// Whether two payloads hold the same values.
pub open spec fn same_payload(p: Payload, q: Payload) -> bool {
    match (p, q) {
        (Payload::SharePackage(a), Payload::SharePackage(b)) => a.group_public.bytes == b.group_public.bytes
            && a.secret_share == b.secret_share && a.share_commitment@ == b.share_commitment@,
        (Payload::SigningCommitments(a), Payload::SigningCommitments(b)) => a == b,
        (Payload::SigningPackage(a), Payload::SigningPackage(b)) => a.signing_commitments@ == b.signing_commitments@
            && a.message@ == b.message@,
        (Payload::SignatureShare(a), Payload::SignatureShare(b)) => a == b,
        (Payload::AggregateSignature(a), Payload::AggregateSignature(b)) => a == b,
        _ => false,
    }
}

proof fn lemma_length_prefix_injective(n: nat, m: nat)
    requires
        n < pow256(8),
        m < pow256(8),
        length_prefix(n) == length_prefix(m),
    ensures
        n == m,
{
    lemma_le_nat_of_le_fixed(n, 8);
    lemma_le_nat_of_le_fixed(m, 8);
    vstd::arithmetic::div_mod::lemma_small_mod(n, pow256(8));
    vstd::arithmetic::div_mod::lemma_small_mod(m, pow256(8));
}

proof fn lemma_commitments_encoding_injective(a: Seq<Commitment>, b: Seq<Commitment>)
    requires
        a.len() == b.len(),
        commitments_encoding(a) == commitments_encoding(b),
    ensures
        a == b,
    decreases a.len(),
{
    if a.len() > 0 {
        let (ea, eb) = (commitments_encoding(a.drop_last()), commitments_encoding(b.drop_last()));
        lemma_commitments_encoding_len(a.drop_last());
        lemma_commitments_encoding_len(b.drop_last());
        let whole = commitments_encoding(a);
        assert(ea =~= whole.subrange(0, ea.len() as int));
        assert(eb =~= whole.subrange(0, ea.len() as int));
        assert(a.last().0@ =~= whole.subrange(ea.len() as int, whole.len() as int));
        assert(b.last().0@ =~= whole.subrange(ea.len() as int, whole.len() as int));
        lemma_commitments_encoding_injective(a.drop_last(), b.drop_last());
        assert(a.last().0 =~= b.last().0);
        assert(a =~= a.drop_last().push(a.last()));
        assert(b =~= b.drop_last().push(b.last()));
    }
}

proof fn lemma_signer_commitments_encoding_injective(a: Seq<(ParticipantId, SigningCommitments)>,
    b: Seq<(ParticipantId, SigningCommitments)>)
    requires
        a.len() == b.len(),
        forall|k: int| 0 <= k < a.len() ==> (#[trigger] a[k]).0.wf(),
        forall|k: int| 0 <= k < b.len() ==> (#[trigger] b[k]).0.wf(),
        signer_commitments_encoding(a) == signer_commitments_encoding(b),
    ensures
        a == b,
    decreases a.len(),
{
    if a.len() > 0 {
        let (ea, eb) = (signer_commitments_encoding(a.drop_last()), signer_commitments_encoding(b.drop_last()));
        lemma_signer_commitments_encoding_len(a.drop_last());
        lemma_signer_commitments_encoding_len(b.drop_last());
        let whole = signer_commitments_encoding(a);
        let n = ea.len() as int;
        assert(ea =~= whole.subrange(0, n));
        assert(eb =~= whole.subrange(0, n));
        assert(whole[n] == participant_byte(a.last().0));
        assert(whole[n] == participant_byte(b.last().0));
        lemma_participant_byte_round_trip(a.last().0, 0);
        lemma_participant_byte_round_trip(b.last().0, 0);
        assert(a.last().1.hiding.0@ =~= whole.subrange(n + 1, n + 33));
        assert(b.last().1.hiding.0@ =~= whole.subrange(n + 1, n + 33));
        assert(a.last().1.binding.0@ =~= whole.subrange(n + 33, n + 65));
        assert(b.last().1.binding.0@ =~= whole.subrange(n + 33, n + 65));
        assert(a.last().1.hiding.0 =~= b.last().1.hiding.0);
        assert(a.last().1.binding.0 =~= b.last().1.binding.0);
        lemma_signer_commitments_encoding_injective(a.drop_last(), b.drop_last());
        assert(a =~= a.drop_last().push(a.last()));
        assert(b =~= b.drop_last().push(b.last()));
    }
}

/// Two well-formed messages with the same encoding are the same message: so decoding
/// the encoding of a well-formed message gives that message back.
pub proof fn lemma_message_encoding_injective(m1: Message, m2: Message)
    requires
        m1.wf(),
        m2.wf(),
        message_encoding(m1) == message_encoding(m2),
    ensures
        m1.header == m2.header,
        same_payload(m1.payload, m2.payload),
{
    let e = message_encoding(m1);
    assert(e[0] == m1.header.version.0 && e[0] == m2.header.version.0);
    assert(e[1] == participant_byte(m1.header.sender) && e[1] == participant_byte(m2.header.sender));
    assert(e[2] == participant_byte(m1.header.receiver) && e[2] == participant_byte(m2.header.receiver));
    lemma_participant_byte_round_trip(m1.header.sender, 0);
    lemma_participant_byte_round_trip(m2.header.sender, 0);
    lemma_participant_byte_round_trip(m1.header.receiver, 0);
    lemma_participant_byte_round_trip(m2.header.receiver, 0);
    let enc1 = payload_encoding(m1.payload);
    let enc2 = payload_encoding(m2.payload);
    assert(enc1 =~= e.subrange(3, e.len() as int));
    assert(enc2 =~= e.subrange(3, e.len() as int));
    lemma_payload_encoding_injective(m1.payload, m2.payload);
}

proof fn lemma_payload_encoding_injective(p: Payload, q: Payload)
    requires
        payload_encoding(p) == payload_encoding(q),
        p matches Payload::SigningPackage(sp) ==> forall|k: int|
            0 <= k < sp.signing_commitments@.len() ==> (#[trigger] sp.signing_commitments@[k]).0.wf(),
        q matches Payload::SigningPackage(sp) ==> forall|k: int|
            0 <= k < sp.signing_commitments@.len() ==> (#[trigger] sp.signing_commitments@[k]).0.wf(),
    ensures
        same_payload(p, q),
{
    let e = payload_encoding(p);
    reveal_with_fuel(pow256, 9);
    match (p, q) {
        (Payload::SharePackage(a), Payload::SharePackage(b)) => {
            lemma_le_nat_of_le_fixed(a.share_commitment@.len(), 8);
            lemma_le_nat_of_le_fixed(b.share_commitment@.len(), 8);
            assert(a.group_public.bytes@ =~= e.subrange(1, 33));
            assert(b.group_public.bytes@ =~= e.subrange(1, 33));
            assert(a.secret_share.0@ =~= e.subrange(33, 65));
            assert(b.secret_share.0@ =~= e.subrange(33, 65));
            assert(length_prefix(a.share_commitment@.len()) =~= e.subrange(65, 73));
            assert(length_prefix(b.share_commitment@.len()) =~= e.subrange(65, 73));
            assert(a.share_commitment.len() == a.share_commitment@.len());
            assert(b.share_commitment.len() == b.share_commitment@.len());
            assert(pow256(8) == 0x10000000000000000);
            lemma_length_prefix_injective(a.share_commitment@.len(), b.share_commitment@.len());
            assert(commitments_encoding(a.share_commitment@) =~= e.subrange(73, e.len() as int));
            assert(commitments_encoding(b.share_commitment@) =~= e.subrange(73, e.len() as int));
            lemma_commitments_encoding_injective(a.share_commitment@, b.share_commitment@);
            assert(a.group_public.bytes =~= b.group_public.bytes);
            assert(a.secret_share.0 =~= b.secret_share.0);
        },
        (Payload::SigningCommitments(a), Payload::SigningCommitments(b)) => {
            assert(a.hiding.0@ =~= e.subrange(1, 33));
            assert(b.hiding.0@ =~= e.subrange(1, 33));
            assert(a.binding.0@ =~= e.subrange(33, 65));
            assert(b.binding.0@ =~= e.subrange(33, 65));
            assert(a.hiding.0 =~= b.hiding.0);
            assert(a.binding.0 =~= b.binding.0);
        },
        (Payload::SigningPackage(a), Payload::SigningPackage(b)) => {
            let (ca, cb) = (a.signing_commitments@, b.signing_commitments@);
            lemma_le_nat_of_le_fixed(ca.len(), 8);
            lemma_le_nat_of_le_fixed(cb.len(), 8);
            lemma_le_nat_of_le_fixed(a.message@.len(), 8);
            lemma_le_nat_of_le_fixed(b.message@.len(), 8);
            assert(length_prefix(ca.len()) =~= e.subrange(1, 9));
            assert(length_prefix(cb.len()) =~= e.subrange(1, 9));
            assert(a.signing_commitments.len() == ca.len());
            assert(b.signing_commitments.len() == cb.len());
            assert(a.message.len() == a.message@.len());
            assert(b.message.len() == b.message@.len());
            assert(pow256(8) == 0x10000000000000000);
            lemma_length_prefix_injective(ca.len(), cb.len());
            lemma_signer_commitments_encoding_len(ca);
            lemma_signer_commitments_encoding_len(cb);
            let n = 9 + 65 * ca.len() as int;
            assert(signer_commitments_encoding(ca) =~= e.subrange(9, n));
            assert(signer_commitments_encoding(cb) =~= e.subrange(9, n));
            lemma_signer_commitments_encoding_injective(ca, cb);
            assert(length_prefix(a.message@.len()) =~= e.subrange(n, n + 8));
            assert(length_prefix(b.message@.len()) =~= e.subrange(n, n + 8));
            lemma_length_prefix_injective(a.message@.len(), b.message@.len());
            assert(a.message@ =~= e.subrange(n + 8, e.len() as int));
            assert(b.message@ =~= e.subrange(n + 8, e.len() as int));
        },
        (Payload::SignatureShare(a), Payload::SignatureShare(b)) => {
            assert(a.signature.0@ =~= e.subrange(1, 33));
            assert(b.signature.0@ =~= e.subrange(1, 33));
            assert(a.signature.0 =~= b.signature.0);
        },
        (Payload::AggregateSignature(a), Payload::AggregateSignature(b)) => {
            assert(a.group_commitment.0@ =~= e.subrange(1, 33));
            assert(b.group_commitment.0@ =~= e.subrange(1, 33));
            assert(a.schnorr_signature.0@ =~= e.subrange(33, 65));
            assert(b.schnorr_signature.0@ =~= e.subrange(33, 65));
            assert(a.group_commitment.0 =~= b.group_commitment.0);
            assert(a.schnorr_signature.0 =~= b.schnorr_signature.0);
        },
        _ => {
            assert(payload_encoding(p)[0] == payload_encoding(q)[0]);
        },
    }
}

} // verus!
