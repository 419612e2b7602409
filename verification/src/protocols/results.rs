//! What the protocols produce: key shares, auxiliary data and signatures.

use vstd::prelude::*;
use crate::participants::{is_canonical, spec_position, ParticipantSet};
use crate::protocols::parties::copy_scalars;
use crate::sessions::error::LocalError;
use crate::tools::arithmetic::{
    public_point,
    scalar_add,
    scalar_mul,
    scalar_sum,
    spec_add,
    spec_mul,
    spec_point,
    spec_points,
    spec_sum,
};
use crate::tools::codec::{encode_scalars, spec_encode_scalars};
use crate::tools::hashing::{absorb_word, digest, spec_absorb_word, spec_digest, FNV_OFFSET};

verus! {

/// The public points of a list of scalars.
pub fn public_points(secrets: &Vec<u64>) -> (points: Vec<u64>)
    ensures
        points@ == spec_points(secrets@),
{
    let mut points: Vec<u64> = Vec::new();
    let mut i: usize = 0;
    while i < secrets.len()
        invariant
            i <= secrets.len(),
            points@ == spec_points(secrets@).take(i as int),
        decreases secrets.len() - i,
    {
        points.push(public_point(secrets[i]));
        proof {
            let target = spec_points(secrets@);
            assert(target.take(i + 1) =~= target.take(i as int).push(target[i as int]));
        }
        i = i + 1;
    }
    proof {
        let target = spec_points(secrets@);
        assert(target.take(i as int) =~= target);
    }
    points
}

/// One party's share of a signing key, with the public shares of all holders.
#[derive(Debug)]
pub struct KeyShare {
    owner: u64,
    secret_share: u64,
    holders: ParticipantSet,
    public_shares: Vec<u64>,
}

/// The mathematical content of [`KeyShare`]. The public values are listed by
/// the position of their holders in canonical order.
pub struct KeyShareView {
    pub owner: u64,
    pub secret_share: u64,
    pub holders: Seq<u64>,
    pub public_shares: Seq<u64>,
}

impl View for KeyShare {
    type V = KeyShareView;

    closed spec fn view(&self) -> KeyShareView {
        KeyShareView {
            owner: self.owner,
            secret_share: self.secret_share,
            holders: self.holders@,
            public_shares: self.public_shares@,
        }
    }
}

/// Whether the data is consistent: the holders are in canonical order, there
/// is one public value per holder, the owner is a holder, and the owner's
/// public value is the public point of its secret.
pub open spec fn spec_key_share_wf(v: KeyShareView) -> bool {
    &&& is_canonical(v.holders)
    &&& v.public_shares.len() == v.holders.len()
    &&& v.holders.contains(v.owner)
    &&& v.public_shares[spec_position(v.holders, v.owner)] == spec_point(v.secret_share)
}

impl KeyShare {
    #[verifier::type_invariant]
    spec fn consistent(self) -> bool {
        spec_key_share_wf(self@)
    }

    /// Whether the data is consistent. Every value is.
    pub open spec fn wf(&self) -> bool {
        spec_key_share_wf(self@)
    }

    /// Recalls that the data is consistent.
    pub fn recall(&self)
        ensures
            self.wf(),
    {
        proof {
            use_type_invariant(self);
        }
    }

    /// Puts the parts together, if they are consistent.
    pub fn new(owner: u64, secret_share: u64, holders: ParticipantSet, public_shares: Vec<u64>) -> (r:
        Result<KeyShare, LocalError>)
        ensures
            match r {
                Ok(made) => made.wf() && made@ == (KeyShareView {
                    owner,
                    secret_share,
                    holders: holders@,
                    public_shares: public_shares@,
                }),
                Err(e) => e == LocalError::InconsistentAssociatedData && !spec_key_share_wf(
                    KeyShareView { owner, secret_share, holders: holders@, public_shares: public_shares@ },
                ),
            },
    {
        if public_shares.len() != holders.len() {
            return Err(LocalError::InconsistentAssociatedData);
        }
        match holders.position(owner) {
            Some(at) => {
                if public_shares[at] == public_point(secret_share) {
                    Ok(KeyShare { owner, secret_share, holders, public_shares })
                } else {
                    Err(LocalError::InconsistentAssociatedData)
                }
            },
            None => Err(LocalError::InconsistentAssociatedData),
        }
    }

    /// The party this data belongs to.
    pub fn owner(&self) -> (owner: u64)
        ensures
            owner == self@.owner,
    {
        self.owner
    }

    /// The owner's secret.
    pub fn secret_share(&self) -> (secret: u64)
        ensures
            secret == self@.secret_share,
    {
        self.secret_share
    }

    /// The parties that hold a part.
    pub fn holders(&self) -> (holders: &ParticipantSet)
        ensures
            holders@ == self@.holders,
            is_canonical(self@.holders),
    {
        self.holders.recall_order();
        &self.holders
    }

    /// The public values of all holders, by position.
    pub fn public_shares(&self) -> (values: &Vec<u64>)
        ensures
            values@ == self@.public_shares,
    {
        &self.public_shares
    }

    /// A copy.
    pub fn duplicate(&self) -> (copy: KeyShare)
        ensures
            copy@ == self@,
    {
        proof {
            use_type_invariant(self);
        }
        KeyShare {
            owner: self.owner,
            secret_share: self.secret_share,
            holders: self.holders.duplicate(),
            public_shares: copy_scalars(&self.public_shares),
        }
    }

    /// Deals every holder its part from the secrets of all, given by
    /// position. Fails if the number of secrets is not the number of holders.
    pub fn new_centralized(holders: &ParticipantSet, secrets: &Vec<u64>) -> (r: Result<
        Vec<KeyShare>,
        LocalError,
    >)
        ensures
            match r {
                Ok(parts) => {
                    &&& secrets@.len() == holders@.len()
                    &&& parts@.len() == holders@.len()
                    &&& forall|p: int|
                        0 <= p < parts@.len() ==> (#[trigger] parts@[p]).wf() && parts@[p]@ == (
                        KeyShareView {
                            owner: holders@[p],
                            secret_share: secrets@[p],
                            holders: holders@,
                            public_shares: spec_points(secrets@),
                        })
                },
                Err(e) => e == LocalError::WrongSecretCount && secrets@.len() != holders@.len(),
            },
    {
        let n = holders.len();
        if secrets.len() != n {
            return Err(LocalError::WrongSecretCount);
        }
        let points = public_points(secrets);
        let mut parts: Vec<KeyShare> = Vec::new();
        let mut p: usize = 0;
        while p < n
            invariant
                p <= n,
                n == holders@.len(),
                secrets@.len() == n,
                points@ == spec_points(secrets@),
                parts@.len() == p,
                forall|k: int|
                    0 <= k < p ==> (#[trigger] parts@[k]).wf() && parts@[k]@ == (KeyShareView {
                        owner: holders@[k],
                        secret_share: secrets@[k],
                        holders: holders@,
                        public_shares: spec_points(secrets@),
                    }),
            decreases n - p,
        {
            let owner = holders.at(p);
            let part = KeyShare {
                owner,
                secret_share: secrets[p],
                holders: holders.duplicate(),
                public_shares: copy_scalars(&points),
            };
            parts.push(part);
            p = p + 1;
        }
        Ok(parts)
    }
}

impl KeyShare {
    /// The public key the shares add up to.
    pub open spec fn spec_verifying_key(v: KeyShareView) -> u64 {
        spec_sum(v.public_shares)
    }

    /// The public key the shares add up to.
    pub fn verifying_key(&self) -> (key: u64)
        ensures
            key == KeyShare::spec_verifying_key(self@),
    {
        scalar_sum(&self.public_shares)
    }
}

/// One party's auxiliary secret, with the public auxiliary values of all holders.
#[derive(Debug)]
pub struct AuxInfo {
    owner: u64,
    secret_aux: u64,
    holders: ParticipantSet,
    public_aux: Vec<u64>,
}

/// The mathematical content of [`AuxInfo`]. The public values are listed by
/// the position of their holders in canonical order.
pub struct AuxInfoView {
    pub owner: u64,
    pub secret_aux: u64,
    pub holders: Seq<u64>,
    pub public_aux: Seq<u64>,
}

impl View for AuxInfo {
    type V = AuxInfoView;

    closed spec fn view(&self) -> AuxInfoView {
        AuxInfoView {
            owner: self.owner,
            secret_aux: self.secret_aux,
            holders: self.holders@,
            public_aux: self.public_aux@,
        }
    }
}

/// Whether the data is consistent: the holders are in canonical order, there
/// is one public value per holder, the owner is a holder, and the owner's
/// public value is the public point of its secret.
pub open spec fn spec_aux_info_wf(v: AuxInfoView) -> bool {
    &&& is_canonical(v.holders)
    &&& v.public_aux.len() == v.holders.len()
    &&& v.holders.contains(v.owner)
    &&& v.public_aux[spec_position(v.holders, v.owner)] == spec_point(v.secret_aux)
}

impl AuxInfo {
    #[verifier::type_invariant]
    spec fn consistent(self) -> bool {
        spec_aux_info_wf(self@)
    }

    /// Whether the data is consistent. Every value is.
    pub open spec fn wf(&self) -> bool {
        spec_aux_info_wf(self@)
    }

    /// Recalls that the data is consistent.
    pub fn recall(&self)
        ensures
            self.wf(),
    {
        proof {
            use_type_invariant(self);
        }
    }

    /// Puts the parts together, if they are consistent.
    pub fn new(owner: u64, secret_aux: u64, holders: ParticipantSet, public_aux: Vec<u64>) -> (r:
        Result<AuxInfo, LocalError>)
        ensures
            match r {
                Ok(made) => made.wf() && made@ == (AuxInfoView {
                    owner,
                    secret_aux,
                    holders: holders@,
                    public_aux: public_aux@,
                }),
                Err(e) => e == LocalError::InconsistentAssociatedData && !spec_aux_info_wf(
                    AuxInfoView { owner, secret_aux, holders: holders@, public_aux: public_aux@ },
                ),
            },
    {
        if public_aux.len() != holders.len() {
            return Err(LocalError::InconsistentAssociatedData);
        }
        match holders.position(owner) {
            Some(at) => {
                if public_aux[at] == public_point(secret_aux) {
                    Ok(AuxInfo { owner, secret_aux, holders, public_aux })
                } else {
                    Err(LocalError::InconsistentAssociatedData)
                }
            },
            None => Err(LocalError::InconsistentAssociatedData),
        }
    }

    /// The party this data belongs to.
    pub fn owner(&self) -> (owner: u64)
        ensures
            owner == self@.owner,
    {
        self.owner
    }

    /// The owner's secret.
    pub fn secret_aux(&self) -> (secret: u64)
        ensures
            secret == self@.secret_aux,
    {
        self.secret_aux
    }

    /// The parties that hold a part.
    pub fn holders(&self) -> (holders: &ParticipantSet)
        ensures
            holders@ == self@.holders,
            is_canonical(self@.holders),
    {
        self.holders.recall_order();
        &self.holders
    }

    /// The public values of all holders, by position.
    pub fn public_aux(&self) -> (values: &Vec<u64>)
        ensures
            values@ == self@.public_aux,
    {
        &self.public_aux
    }

    /// A copy.
    pub fn duplicate(&self) -> (copy: AuxInfo)
        ensures
            copy@ == self@,
    {
        proof {
            use_type_invariant(self);
        }
        AuxInfo {
            owner: self.owner,
            secret_aux: self.secret_aux,
            holders: self.holders.duplicate(),
            public_aux: copy_scalars(&self.public_aux),
        }
    }

    /// Deals every holder its part from the secrets of all, given by
    /// position. Fails if the number of secrets is not the number of holders.
    pub fn new_centralized(holders: &ParticipantSet, secrets: &Vec<u64>) -> (r: Result<
        Vec<AuxInfo>,
        LocalError,
    >)
        ensures
            match r {
                Ok(parts) => {
                    &&& secrets@.len() == holders@.len()
                    &&& parts@.len() == holders@.len()
                    &&& forall|p: int|
                        0 <= p < parts@.len() ==> (#[trigger] parts@[p]).wf() && parts@[p]@ == (
                        AuxInfoView {
                            owner: holders@[p],
                            secret_aux: secrets@[p],
                            holders: holders@,
                            public_aux: spec_points(secrets@),
                        })
                },
                Err(e) => e == LocalError::WrongSecretCount && secrets@.len() != holders@.len(),
            },
    {
        let n = holders.len();
        if secrets.len() != n {
            return Err(LocalError::WrongSecretCount);
        }
        let points = public_points(secrets);
        let mut parts: Vec<AuxInfo> = Vec::new();
        let mut p: usize = 0;
        while p < n
            invariant
                p <= n,
                n == holders@.len(),
                secrets@.len() == n,
                points@ == spec_points(secrets@),
                parts@.len() == p,
                forall|k: int|
                    0 <= k < p ==> (#[trigger] parts@[k]).wf() && parts@[k]@ == (AuxInfoView {
                        owner: holders@[k],
                        secret_aux: secrets@[k],
                        holders: holders@,
                        public_aux: spec_points(secrets@),
                    }),
            decreases n - p,
        {
            let owner = holders.at(p);
            let part = AuxInfo {
                owner,
                secret_aux: secrets[p],
                holders: holders.duplicate(),
                public_aux: copy_scalars(&points),
            };
            parts.push(part);
            p = p + 1;
        }
        Ok(parts)
    }
}

/// A signature on a message under a shared public key.
#[derive(Clone, Copy, Debug, PartialEq, Eq, Structural)]
pub struct Signature {
    pub r: u64,
    pub s: u64,
}

/// The challenge of a signature: a digest of the nonce point, the public
/// key and the digest of the message.
pub open spec fn spec_signing_challenge(r: u64, public_key: u64, message_digest: u64) -> u64 {
    spec_absorb_word(spec_absorb_word(spec_absorb_word(FNV_OFFSET, r), public_key), message_digest)
}

/// Whether `signature` is valid for the message with digest
/// `message_digest` under `public_key`.
pub open spec fn spec_signature_verifies(
    signature: Signature,
    public_key: u64,
    message_digest: u64,
) -> bool {
    spec_point(signature.s) == spec_add(
        signature.r,
        spec_mul(spec_signing_challenge(signature.r, public_key, message_digest), public_key),
    )
}

/// Computes the challenge of a signature.
pub fn signing_challenge(r: u64, public_key: u64, message_digest: u64) -> (e: u64)
    ensures
        e == spec_signing_challenge(r, public_key, message_digest),
{
    absorb_word(absorb_word(absorb_word(FNV_OFFSET, r), public_key), message_digest)
}

impl Signature {
    /// Decides whether the signature is valid for `message` under
    /// `public_key`.
    pub fn verify(&self, public_key: u64, message: &Vec<u8>) -> (ok: bool)
        ensures
            ok == spec_signature_verifies(*self, public_key, spec_digest(message@)),
    {
        let e = signing_challenge(self.r, public_key, digest(message));
        public_point(self.s) == scalar_add(self.r, scalar_mul(e, public_key))
    }

    /// The sixteen bytes of the signature: `r`, then `s`.
    pub fn to_bytes(&self) -> (bytes: Vec<u8>)
        ensures
            bytes@ == spec_encode_scalars(seq![self.r, self.s]),
    {
        let mut parts: Vec<u64> = Vec::new();
        parts.push(self.r);
        parts.push(self.s);
        proof {
            assert(parts@ =~= seq![self.r, self.s]);
        }
        encode_scalars(&parts)
    }
}

/// What a protocol run ends with.
#[derive(Debug)]
pub enum ProtocolResult {
    /// A share of a signing key.
    KeyShare(KeyShare),
    /// This party's auxiliary data.
    AuxInfo(AuxInfo),
    /// A signature under the shared key.
    Signature(Signature),
    /// Nothing: the party handed its share on and holds none any more.
    NoShare,
}

/// The mathematical content of a [`ProtocolResult`].
pub enum ProtocolResultView {
    KeyShare(KeyShareView),
    AuxInfo(AuxInfoView),
    Signature(Signature),
    NoShare,
}

impl View for ProtocolResult {
    type V = ProtocolResultView;

    open spec fn view(&self) -> ProtocolResultView {
        match self {
            ProtocolResult::KeyShare(share) => ProtocolResultView::KeyShare(share@),
            ProtocolResult::AuxInfo(aux) => ProtocolResultView::AuxInfo(aux@),
            ProtocolResult::Signature(signature) => ProtocolResultView::Signature(*signature),
            ProtocolResult::NoShare => ProtocolResultView::NoShare,
        }
    }
}

/// Whether a result is consistent.
pub open spec fn spec_result_wf(v: ProtocolResultView) -> bool {
    match v {
        ProtocolResultView::KeyShare(share) => spec_key_share_wf(share),
        ProtocolResultView::AuxInfo(aux) => spec_aux_info_wf(aux),
        _ => true,
    }
}

} // verus!
