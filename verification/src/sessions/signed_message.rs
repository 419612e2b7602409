//! Signed envelopes: what travels between sessions.
//!
//! An envelope carries a payload together with the session, the round, the
//! sender and the category it belongs to, and a signature that ties all of
//! them to the sender's identity. The signature scheme is the linear one the
//! scalar group affords: a signature is the signer's secret plus a challenge
//! derived from the signed fields, and it is verified against the signer's
//! public point.

use vstd::prelude::*;
use vstd::bytes::{
    lemma_auto_spec_u32_to_from_le_bytes,
    lemma_auto_spec_u64_to_from_le_bytes,
    spec_u32_from_le_bytes,
    spec_u32_to_le_bytes,
    spec_u64_from_le_bytes,
    spec_u64_to_le_bytes,
    u32_from_le_bytes,
    u32_to_le_bytes,
    u64_from_le_bytes,
    u64_to_le_bytes,
};
use vstd::slice::slice_subrange;
use rand_core::OsRng;
use crate::sessions::error::LocalError;
use crate::tools::arithmetic::{
    lemma_add_laws,
    lemma_point_injective,
    lemma_point_of_sum,
    lemma_sub_laws,
    public_point,
    scalar_add,
    spec_add,
    spec_point,
    spec_sub,
};
use crate::tools::hashing::{
    absorb_word,
    digest,
    lemma_absorb_word_injective,
    lemma_digest_detects_single_byte,
    spec_absorb_word,
    spec_digest,
    FNV_OFFSET,
};
use crate::tools::random::random_scalar;

verus! {

/// The category of a payload.
#[derive(Clone, Copy, Debug, PartialEq, Eq, Structural)]
pub enum PayloadKind {
    /// The same content for every recipient; subject to consensus.
    Broadcast,
    /// Content meant for one recipient.
    Direct,
    /// A recipient's account of the broadcasts it received in a round.
    Confirmation,
}

/// The number that stands for a category in a signature.
pub open spec fn spec_kind_tag(kind: PayloadKind) -> u64 {
    match kind {
        PayloadKind::Broadcast => 0,
        PayloadKind::Direct => 1,
        PayloadKind::Confirmation => 2,
    }
}

/// The digest of the signed fields other than the payload.
pub open spec fn spec_header_digest(
    session_id: u64,
    round: u32,
    sender: u64,
    kind: PayloadKind,
) -> u64 {
    spec_absorb_word(
        spec_absorb_word(
            spec_absorb_word(spec_absorb_word(FNV_OFFSET, session_id), round as u64),
            sender,
        ),
        spec_kind_tag(kind),
    )
}

/// The challenge a signature answers: the digest of the header plus the
/// digest of the payload.
pub open spec fn spec_challenge(
    session_id: u64,
    round: u32,
    sender: u64,
    kind: PayloadKind,
    payload_digest: u64,
) -> u64 {
    spec_add(spec_header_digest(session_id, round, sender, kind), payload_digest)
}

/// The signature of `secret` on `challenge`.
pub open spec fn spec_sign(secret: u64, challenge: u64) -> u64 {
    spec_add(secret, challenge)
}

/// Whether `signature` answers `challenge` for the signer with public point
/// `identity`.
pub open spec fn spec_verifies(identity: u64, challenge: u64, signature: u64) -> bool {
    spec_point(signature) == spec_add(identity, spec_point(challenge))
}

/// A signer's own signature verifies against its identity.
pub proof fn lemma_signature_verifies(secret: u64, challenge: u64)
    ensures
        spec_verifies(spec_point(secret), challenge, spec_sign(secret, challenge)),
{
    lemma_point_of_sum(secret, challenge);
}

/// A signature answers at most one challenge for a given identity.
pub proof fn lemma_signature_binds_challenge(identity: u64, c1: u64, c2: u64, signature: u64)
    requires
        spec_verifies(identity, c1, signature),
        spec_verifies(identity, c2, signature),
    ensures
        c1 == c2,
{
    let first = spec_point(c1);
    let second = spec_point(c2);
    lemma_add_laws(identity, first, 0);
    lemma_add_laws(identity, second, 0);
    lemma_sub_laws(first, identity);
    lemma_sub_laws(second, identity);
    assert(first == spec_sub(spec_add(first, identity), identity));
    assert(second == spec_sub(spec_add(second, identity), identity));
    lemma_point_injective(c1, c2);
}

/// The secret half of a party's identity.
#[derive(Debug)]
pub struct SigningKey {
    secret: u64,
}

impl SigningKey {
    /// The secret scalar.
    pub closed spec fn spec_secret(self) -> u64 {
        self.secret
    }

    /// The identity that signatures of this key verify against.
    pub open spec fn spec_verifying_key(self) -> u64 {
        spec_point(self.spec_secret())
    }

    /// The key with the given secret scalar.
    pub fn new(secret: u64) -> (key: SigningKey)
        ensures
            key.spec_secret() == secret,
    {
        SigningKey { secret }
    }

    /// A key with a freshly drawn secret.
    pub fn random(rng: &mut OsRng) -> (r: Result<SigningKey, LocalError>)
        ensures
            r matches Err(e) ==> e == LocalError::RandomnessUnavailable,
    {
        match random_scalar(rng) {
            Ok(secret) => Ok(SigningKey { secret }),
            Err(e) => Err(e),
        }
    }

    /// The identity of the party that holds this key.
    pub fn verifying_key(&self) -> (identity: u64)
        ensures
            identity == self.spec_verifying_key(),
    {
        public_point(self.secret)
    }

    /// Signs a challenge.
    pub fn sign(&self, challenge: u64) -> (signature: u64)
        ensures
            signature == spec_sign(self.spec_secret(), challenge),
            spec_verifies(self.spec_verifying_key(), challenge, signature),
    {
        proof {
            lemma_signature_verifies(self.secret, challenge);
        }
        scalar_add(self.secret, challenge)
    }

    /// A copy of the key.
    pub fn duplicate(&self) -> (key: SigningKey)
        ensures
            key.spec_secret() == self.spec_secret(),
    {
        SigningKey { secret: self.secret }
    }
}

/// Computes the challenge for the given fields.
pub fn challenge(session_id: u64, round: u32, sender: u64, kind: PayloadKind, payload_digest: u64) -> (c:
    u64)
    ensures
        c == spec_challenge(session_id, round, sender, kind, payload_digest),
{
    let tag: u64 = match kind {
        PayloadKind::Broadcast => 0,
        PayloadKind::Direct => 1,
        PayloadKind::Confirmation => 2,
    };
    let h1 = absorb_word(FNV_OFFSET, session_id);
    let h2 = absorb_word(h1, round as u64);
    let h3 = absorb_word(h2, sender);
    let h4 = absorb_word(h3, tag);
    scalar_add(h4, payload_digest)
}

/// Decides whether `signature` answers `challenge` for `identity`.
pub fn verifies(identity: u64, challenge: u64, signature: u64) -> (ok: bool)
    ensures
        ok == spec_verifies(identity, challenge, signature),
{
    public_point(signature) == scalar_add(identity, public_point(challenge))
}

/// Why an envelope was not accepted.
#[derive(Clone, Copy, Debug, PartialEq, Eq, Structural)]
pub enum AuthenticationFault {
    /// The envelope belongs to another session.
    SessionMismatch,
    /// The envelope's round is outside the rounds currently accepted.
    RoundOutOfRange,
    /// The signature does not verify against the claimed sender.
    InvalidSignature,
}

/// An envelope that was not accepted, with the sender it claims.
#[derive(Clone, Copy, Debug, PartialEq, Eq, Structural)]
pub struct AuthenticationError {
    pub sender: u64,
    pub fault: AuthenticationFault,
}

/// A signed envelope as it travels on the wire.
#[derive(Clone, Debug, PartialEq, Eq)]
pub struct SignedMessage {
    pub session_id: u64,
    pub round: u32,
    pub sender: u64,
    pub kind: PayloadKind,
    pub payload: Vec<u8>,
    pub signature: u64,
}

/// The mathematical content of an envelope.
pub struct MessageView {
    pub session_id: u64,
    pub round: u32,
    pub sender: u64,
    pub kind: PayloadKind,
    pub payload: Seq<u8>,
    pub signature: u64,
}

impl View for SignedMessage {
    type V = MessageView;

    open spec fn view(&self) -> MessageView {
        MessageView {
            session_id: self.session_id,
            round: self.round,
            sender: self.sender,
            kind: self.kind,
            payload: self.payload@,
            signature: self.signature,
        }
    }
}

/// Whether the signature of an envelope verifies against its claimed sender.
pub open spec fn spec_authentic(m: MessageView) -> bool {
    spec_verifies(
        m.sender,
        spec_challenge(m.session_id, m.round, m.sender, m.kind, spec_digest(m.payload)),
        m.signature,
    )
}

/// The envelope that sealing produces.
pub open spec fn spec_seal(
    session_id: u64,
    round: u32,
    sender: u64,
    kind: PayloadKind,
    payload: Seq<u8>,
    secret: u64,
) -> MessageView {
    MessageView {
        session_id,
        round,
        sender,
        kind,
        payload,
        signature: spec_sign(
            secret,
            spec_challenge(session_id, round, sender, kind, spec_digest(payload)),
        ),
    }
}

/// What opening an envelope yields: its payload, or the first reason, in
/// the order session, round, signature, for which it is not accepted.
pub open spec fn spec_open(
    m: MessageView,
    expected_session_id: u64,
    first_round: u32,
    last_round: u32,
) -> Result<Seq<u8>, AuthenticationError> {
    if m.session_id != expected_session_id {
        Err(AuthenticationError { sender: m.sender, fault: AuthenticationFault::SessionMismatch })
    } else if !(first_round <= m.round <= last_round) {
        Err(AuthenticationError { sender: m.sender, fault: AuthenticationFault::RoundOutOfRange })
    } else if !spec_authentic(m) {
        Err(AuthenticationError { sender: m.sender, fault: AuthenticationFault::InvalidSignature })
    } else {
        Ok(m.payload)
    }
}

impl SignedMessage {
    /// Wraps `payload` for the given session, round and category, naming
    /// `sender` as its origin, and signs all of it with `key`.
    pub fn seal(
        session_id: u64,
        round: u32,
        sender: u64,
        kind: PayloadKind,
        payload: Vec<u8>,
        key: &SigningKey,
    ) -> (message: SignedMessage)
        ensures
            message@ == spec_seal(session_id, round, sender, kind, payload@, key.spec_secret()),
    {
        let payload_digest = digest(&payload);
        let signature = key.sign(challenge(session_id, round, sender, kind, payload_digest));
        SignedMessage { session_id, round, sender, kind, payload, signature }
    }

    /// Decides whether the signature verifies against the claimed sender.
    pub fn is_authentic(&self) -> (ok: bool)
        ensures
            ok == spec_authentic(self@),
    {
        let payload_digest = digest(&self.payload);
        verifies(
            self.sender,
            challenge(self.session_id, self.round, self.sender, self.kind, payload_digest),
            self.signature,
        )
    }

    /// Opens the envelope for a session that accepts the rounds from
    /// `first_round` to `last_round`. Yields the payload if the envelope
    /// belongs to the session, its round is accepted and its signature
    /// verifies; otherwise the first of these that fails, attributed to the
    /// claimed sender.
    pub fn open(&self, expected_session_id: u64, first_round: u32, last_round: u32) -> (r: Result<
        &Vec<u8>,
        AuthenticationError,
    >)
        ensures
            match r {
                Ok(payload) => spec_open(self@, expected_session_id, first_round, last_round)
                    == Ok::<Seq<u8>, AuthenticationError>(payload@) && payload@ == self@.payload,
                Err(e) => spec_open(self@, expected_session_id, first_round, last_round) == Err::<
                    Seq<u8>,
                    AuthenticationError,
                >(e),
            },
    {
        if self.session_id != expected_session_id {
            Err(
                AuthenticationError {
                    sender: self.sender,
                    fault: AuthenticationFault::SessionMismatch,
                },
            )
        } else if self.round < first_round || self.round > last_round {
            Err(
                AuthenticationError {
                    sender: self.sender,
                    fault: AuthenticationFault::RoundOutOfRange,
                },
            )
        } else if !self.is_authentic() {
            Err(
                AuthenticationError {
                    sender: self.sender,
                    fault: AuthenticationFault::InvalidSignature,
                },
            )
        } else {
            Ok(&self.payload)
        }
    }

    /// A copy of the envelope.
    pub fn duplicate(&self) -> (copy: SignedMessage)
        ensures
            copy@ == self@,
    {
        SignedMessage {
            session_id: self.session_id,
            round: self.round,
            sender: self.sender,
            kind: self.kind,
            payload: copy_bytes(&self.payload),
            signature: self.signature,
        }
    }
}

/// The number of bytes an envelope takes on the wire before its payload.
pub const HEADER_BYTES: usize = 29;

/// The byte that stands for a category on the wire.
pub open spec fn spec_kind_byte(kind: PayloadKind) -> u8 {
    match kind {
        PayloadKind::Broadcast => 0,
        PayloadKind::Direct => 1,
        PayloadKind::Confirmation => 2,
    }
}

/// The category a byte stands for, if any.
pub open spec fn spec_kind_of_byte(byte: u8) -> Option<PayloadKind> {
    if byte == 0 {
        Some(PayloadKind::Broadcast)
    } else if byte == 1 {
        Some(PayloadKind::Direct)
    } else if byte == 2 {
        Some(PayloadKind::Confirmation)
    } else {
        None
    }
}

/// The bytes of an envelope on the wire: session identifier, round, sender,
/// category and signature, all little-endian, followed by the payload.
pub open spec fn spec_to_bytes(m: MessageView) -> Seq<u8> {
    spec_u64_to_le_bytes(m.session_id) + spec_u32_to_le_bytes(m.round) + spec_u64_to_le_bytes(
        m.sender,
    ) + seq![spec_kind_byte(m.kind)] + spec_u64_to_le_bytes(m.signature) + m.payload
}

/// The envelope that bytes on the wire hold, if they hold one: all fields
/// must be present and the category must be known.
pub open spec fn spec_from_bytes(bytes: Seq<u8>) -> Option<MessageView> {
    if bytes.len() < HEADER_BYTES {
        None
    } else {
        match spec_kind_of_byte(bytes[20]) {
            None => None,
            Some(kind) => Some(
                MessageView {
                    session_id: spec_u64_from_le_bytes(bytes.subrange(0, 8)),
                    round: spec_u32_from_le_bytes(bytes.subrange(8, 12)),
                    sender: spec_u64_from_le_bytes(bytes.subrange(12, 20)),
                    kind,
                    signature: spec_u64_from_le_bytes(bytes.subrange(21, 29)),
                    payload: bytes.subrange(29, bytes.len() as int),
                },
            ),
        }
    }
}

/// Reading undoes writing: every envelope comes back from its bytes.
pub proof fn lemma_from_bytes_to_bytes(m: MessageView)
    ensures
        spec_from_bytes(spec_to_bytes(m)) == Some(m),
{
    lemma_auto_spec_u64_to_from_le_bytes();
    lemma_auto_spec_u32_to_from_le_bytes();
    let bytes = spec_to_bytes(m);
    assert(bytes.len() == 29 + m.payload.len());
    assert(bytes.subrange(0, 8) =~= spec_u64_to_le_bytes(m.session_id));
    assert(bytes.subrange(8, 12) =~= spec_u32_to_le_bytes(m.round));
    assert(bytes.subrange(12, 20) =~= spec_u64_to_le_bytes(m.sender));
    assert(bytes[20] == spec_kind_byte(m.kind));
    assert(bytes.subrange(21, 29) =~= spec_u64_to_le_bytes(m.signature));
    assert(bytes.subrange(29, bytes.len() as int) =~= m.payload);
}

/// Writing undoes reading: bytes that hold an envelope are the bytes of
/// that envelope, so an envelope has one form on the wire.
pub proof fn lemma_to_bytes_from_bytes(bytes: Seq<u8>)
    requires
        spec_from_bytes(bytes) is Some,
    ensures
        spec_to_bytes(spec_from_bytes(bytes)->0) == bytes,
{
    lemma_auto_spec_u64_to_from_le_bytes();
    lemma_auto_spec_u32_to_from_le_bytes();
    let m = spec_from_bytes(bytes)->0;
    let written = spec_to_bytes(m);
    assert(spec_u64_to_le_bytes(m.session_id) == bytes.subrange(0, 8));
    assert(spec_u32_to_le_bytes(m.round) == bytes.subrange(8, 12));
    assert(spec_u64_to_le_bytes(m.sender) == bytes.subrange(12, 20));
    assert(spec_u64_to_le_bytes(m.signature) == bytes.subrange(21, 29));
    assert(spec_kind_byte(m.kind) == bytes[20]);
    assert(written =~= bytes);
}

/// Appends `more` to `target`.
pub fn append_bytes(target: &mut Vec<u8>, more: &Vec<u8>)
    ensures
        final(target)@ == old(target)@ + more@,
{
    let ghost before = target@;
    let mut i: usize = 0;
    while i < more.len()
        invariant
            i <= more.len(),
            target@ == before + more@.take(i as int),
        decreases more.len() - i,
    {
        target.push(more[i]);
        proof {
            assert(more@.take(i + 1) =~= more@.take(i as int).push(more@[i as int]));
            assert(target@ =~= before + more@.take(i + 1));
        }
        i = i + 1;
    }
    proof {
        assert(more@.take(i as int) =~= more@);
    }
}

impl SignedMessage {
    /// Writes the envelope as it travels on the wire.
    pub fn to_bytes(&self) -> (bytes: Vec<u8>)
        ensures
            bytes@ == spec_to_bytes(self@),
    {
        let mut bytes = u64_to_le_bytes(self.session_id);
        append_bytes(&mut bytes, &u32_to_le_bytes(self.round));
        append_bytes(&mut bytes, &u64_to_le_bytes(self.sender));
        bytes.push(
            match self.kind {
                PayloadKind::Broadcast => 0,
                PayloadKind::Direct => 1,
                PayloadKind::Confirmation => 2,
            },
        );
        append_bytes(&mut bytes, &u64_to_le_bytes(self.signature));
        append_bytes(&mut bytes, &self.payload);
        proof {
            assert(bytes@ =~= spec_to_bytes(self@));
        }
        bytes
    }

    /// Reads an envelope from the wire. Fails if a field is missing or the
    /// category is unknown. Reading says nothing about the signature; that
    /// is for [`SignedMessage::open`].
    pub fn from_bytes(bytes: &Vec<u8>) -> (read: Option<SignedMessage>)
        ensures
            match read {
                Some(m) => spec_from_bytes(bytes@) == Some(m@),
                None => spec_from_bytes(bytes@) is None,
            },
    {
        let total: usize = bytes.len();
        if total < HEADER_BYTES {
            return None;
        }
        let kind = match bytes[20] {
            0 => PayloadKind::Broadcast,
            1 => PayloadKind::Direct,
            2 => PayloadKind::Confirmation,
            _ => {
                return None;
            },
        };
        let all = bytes.as_slice();
        let session_id = u64_from_le_bytes(slice_subrange(all, 0, 8));
        let round = u32_from_le_bytes(slice_subrange(all, 8, 12));
        let sender = u64_from_le_bytes(slice_subrange(all, 12, 20));
        let signature = u64_from_le_bytes(slice_subrange(all, 21, 29));
        let mut payload: Vec<u8> = Vec::new();
        let mut i: usize = HEADER_BYTES;
        while i < total
            invariant
                HEADER_BYTES <= i <= total,
                total == bytes@.len(),
                payload@ == bytes@.subrange(HEADER_BYTES as int, i as int),
            decreases total - i,
        {
            payload.push(bytes[i]);
            proof {
                assert(bytes@.subrange(HEADER_BYTES as int, i + 1) =~= bytes@.subrange(
                    HEADER_BYTES as int,
                    i as int,
                ).push(bytes@[i as int]));
            }
            i = i + 1;
        }
        Some(SignedMessage { session_id, round, sender, kind, payload, signature })
    }
}

/// A copy of a byte string.
pub fn copy_bytes(bytes: &Vec<u8>) -> (copy: Vec<u8>)
    ensures
        copy@ == bytes@,
{
    let mut copy: Vec<u8> = Vec::new();
    let mut i: usize = 0;
    while i < bytes.len()
        invariant
            i <= bytes.len(),
            copy@ == bytes@.take(i as int),
        decreases bytes.len() - i,
    {
        copy.push(bytes[i]);
        proof {
            assert(bytes@.take(i + 1) =~= bytes@.take(i as int).push(bytes@[i as int]));
        }
        i = i + 1;
    }
    proof {
        assert(bytes@.take(i as int) =~= bytes@);
    }
    copy
}

/// An envelope sealed by a party under its own identity opens in its
/// session, for every range of rounds that holds its round.
pub proof fn lemma_sealed_envelope_opens(
    session_id: u64,
    round: u32,
    kind: PayloadKind,
    payload: Seq<u8>,
    secret: u64,
    first_round: u32,
    last_round: u32,
)
    requires
        first_round <= round <= last_round,
    ensures
        spec_authentic(spec_seal(session_id, round, spec_point(secret), kind, payload, secret)),
        spec_open(
            spec_seal(session_id, round, spec_point(secret), kind, payload, secret),
            session_id,
            first_round,
            last_round,
        ) == Ok::<Seq<u8>, AuthenticationError>(payload),
{
    lemma_signature_verifies(
        secret,
        spec_challenge(session_id, round, spec_point(secret), kind, spec_digest(payload)),
    );
}

/// Changing one byte of the payload of an authentic envelope always makes
/// opening fail, and the failure names the sender the envelope claims. In the
/// envelope's own session and round range the reason is the signature.
pub proof fn lemma_tampered_payload_is_rejected(
    m: MessageView,
    tampered: Seq<u8>,
    at: int,
    expected_session_id: u64,
    first_round: u32,
    last_round: u32,
)
    requires
        spec_authentic(m),
        tampered.len() == m.payload.len(),
        0 <= at < m.payload.len(),
        tampered[at] != m.payload[at],
        forall|j: int| 0 <= j < m.payload.len() && j != at ==> tampered[j] == m.payload[j],
    ensures
        !spec_authentic(MessageView { payload: tampered, ..m }),
        spec_open(
            MessageView { payload: tampered, ..m },
            expected_session_id,
            first_round,
            last_round,
        ) is Err,
        spec_open(
            MessageView { payload: tampered, ..m },
            expected_session_id,
            first_round,
            last_round,
        )->Err_0.sender == m.sender,
        m.session_id == expected_session_id && first_round <= m.round <= last_round ==> spec_open(
            MessageView { payload: tampered, ..m },
            expected_session_id,
            first_round,
            last_round,
        ) == Err::<Seq<u8>, AuthenticationError>(
            AuthenticationError { sender: m.sender, fault: AuthenticationFault::InvalidSignature },
        ),
{
    let forged = MessageView { payload: tampered, ..m };
    let d1 = spec_digest(m.payload);
    let d2 = spec_digest(tampered);
    lemma_digest_detects_single_byte(FNV_OFFSET, m.payload, tampered, at);
    let h = spec_header_digest(m.session_id, m.round, m.sender, m.kind);
    let c1 = spec_add(h, d1);
    let c2 = spec_add(h, d2);
    if spec_authentic(forged) {
        lemma_signature_binds_challenge(m.sender, c1, c2, m.signature);
        lemma_add_laws(h, d1, 0);
        lemma_add_laws(h, d2, 0);
        lemma_sub_laws(d1, h);
        lemma_sub_laws(d2, h);
        assert(d1 == spec_sub(spec_add(d1, h), h));
        assert(d2 == spec_sub(spec_add(d2, h), h));
        assert(false);
    }
}

/// The digest of the header tells sessions apart, rounds apart and
/// categories apart: headers that differ in exactly one of the three have
/// different digests.
pub proof fn lemma_header_digest_separates(
    session_id: u64,
    round: u32,
    sender: u64,
    kind: PayloadKind,
    other_session: u64,
    other_round: u32,
    other_kind: PayloadKind,
)
    ensures
        other_session != session_id ==> spec_header_digest(other_session, round, sender, kind)
            != spec_header_digest(session_id, round, sender, kind),
        other_round != round ==> spec_header_digest(session_id, other_round, sender, kind)
            != spec_header_digest(session_id, round, sender, kind),
        other_kind != kind ==> spec_header_digest(session_id, round, sender, other_kind)
            != spec_header_digest(session_id, round, sender, kind),
{
    let a1 = spec_absorb_word(FNV_OFFSET, session_id);
    let a2 = spec_absorb_word(a1, round as u64);
    let a3 = spec_absorb_word(a2, sender);
    if other_session != session_id {
        let b1 = spec_absorb_word(FNV_OFFSET, other_session);
        let b2 = spec_absorb_word(b1, round as u64);
        let b3 = spec_absorb_word(b2, sender);
        if spec_absorb_word(b3, spec_kind_tag(kind)) == spec_absorb_word(a3, spec_kind_tag(kind)) {
            lemma_absorb_word_injective(b3, spec_kind_tag(kind), a3, spec_kind_tag(kind));
            lemma_absorb_word_injective(b2, sender, a2, sender);
            lemma_absorb_word_injective(b1, round as u64, a1, round as u64);
            lemma_absorb_word_injective(FNV_OFFSET, other_session, FNV_OFFSET, session_id);
        }
    }
    if other_round != round {
        let b2 = spec_absorb_word(a1, other_round as u64);
        let b3 = spec_absorb_word(b2, sender);
        if spec_absorb_word(b3, spec_kind_tag(kind)) == spec_absorb_word(a3, spec_kind_tag(kind)) {
            lemma_absorb_word_injective(b3, spec_kind_tag(kind), a3, spec_kind_tag(kind));
            lemma_absorb_word_injective(b2, sender, a2, sender);
            lemma_absorb_word_injective(a1, other_round as u64, a1, round as u64);
        }
    }
    if other_kind != kind {
        if spec_absorb_word(a3, spec_kind_tag(other_kind)) == spec_absorb_word(
            a3,
            spec_kind_tag(kind),
        ) {
            lemma_absorb_word_injective(a3, spec_kind_tag(other_kind), a3, spec_kind_tag(kind));
        }
    }
}

/// A signature is bound to its session, its round and its category: an
/// authentic envelope in which exactly one of the three is changed is not
/// authentic any more. What was signed in one run cannot be passed off as
/// signed in another, nor in another round of the same run.
pub proof fn lemma_signature_is_bound_to_its_header(
    m: MessageView,
    other_session: u64,
    other_round: u32,
    other_kind: PayloadKind,
)
    requires
        spec_authentic(m),
    ensures
        other_session != m.session_id ==> !spec_authentic(
            MessageView { session_id: other_session, ..m },
        ),
        other_round != m.round ==> !spec_authentic(MessageView { round: other_round, ..m }),
        other_kind != m.kind ==> !spec_authentic(MessageView { kind: other_kind, ..m }),
{
    let d = spec_digest(m.payload);
    let h = spec_header_digest(m.session_id, m.round, m.sender, m.kind);
    lemma_header_digest_separates(
        m.session_id,
        m.round,
        m.sender,
        m.kind,
        other_session,
        other_round,
        other_kind,
    );
    let h1 = spec_header_digest(other_session, m.round, m.sender, m.kind);
    let h2 = spec_header_digest(m.session_id, other_round, m.sender, m.kind);
    let h3 = spec_header_digest(m.session_id, m.round, m.sender, other_kind);
    lemma_sub_laws(h, d);
    lemma_sub_laws(h1, d);
    lemma_sub_laws(h2, d);
    lemma_sub_laws(h3, d);
    if other_session != m.session_id && spec_authentic(
        MessageView { session_id: other_session, ..m },
    ) {
        lemma_signature_binds_challenge(m.sender, spec_add(h, d), spec_add(h1, d), m.signature);
        assert(h == spec_sub(spec_add(h, d), d));
        assert(h1 == spec_sub(spec_add(h1, d), d));
    }
    if other_round != m.round && spec_authentic(MessageView { round: other_round, ..m }) {
        lemma_signature_binds_challenge(m.sender, spec_add(h, d), spec_add(h2, d), m.signature);
        assert(h == spec_sub(spec_add(h, d), d));
        assert(h2 == spec_sub(spec_add(h2, d), d));
    }
    if other_kind != m.kind && spec_authentic(MessageView { kind: other_kind, ..m }) {
        lemma_signature_binds_challenge(m.sender, spec_add(h, d), spec_add(h3, d), m.signature);
        assert(h == spec_sub(spec_add(h, d), d));
        assert(h3 == spec_sub(spec_add(h3, d), d));
    }
}

/// An envelope of one session is never accepted by another: opening it
/// under a different session identifier fails with a session mismatch that
/// names the claimed sender, whatever its signature.
pub proof fn lemma_replay_across_sessions_is_rejected(
    m: MessageView,
    expected_session_id: u64,
    first_round: u32,
    last_round: u32,
)
    requires
        m.session_id != expected_session_id,
    ensures
        spec_open(m, expected_session_id, first_round, last_round) == Err::<
            Seq<u8>,
            AuthenticationError,
        >(AuthenticationError { sender: m.sender, fault: AuthenticationFault::SessionMismatch }),
{
}

} // verus!
