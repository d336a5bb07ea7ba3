//! Policy weights, per-user accounts, and the state machine that orders
//! aggregation, proof submission and payment requests.
use vstd::prelude::*;
use crate::decryption_proof::{
    challenge_of, lemma_honest_proof_accepted, proof_accepted, verify_decryption_proof,
};
use crate::elgamal::{
    combine, combine_model, decrypt_model, identity_ciphertext, scale, scale_model, Ciphertext, CiphertextModel,
};
use crate::group::{group_order, lemma_cong_add, lemma_mod_idem, lemma_mod_small, GroupElement, Scalar};

verus! {

/// Why an operation was refused. A refused operation changes nothing.
#[derive(Clone, Copy, Debug, PartialEq, Eq)]
pub enum ThemisError {
    /// The account was initialized before.
    AlreadyInitialized,
    /// The user or policies account has not been initialized.
    NotInitialized,
    /// An interaction names a policy that does not exist.
    IndexOutOfRange,
    /// Account bytes, or a point or scalar in them, are malformed.
    DecodeError,
    /// The decryption proof does not verify.
    InvalidProof,
    /// Nothing has been aggregated yet: the aggregate is still the identity.
    AggregateNotReady,
    /// The values of a payment request differ from the stored ones, or an
    /// aggregation names another key than the one recorded.
    StateMismatch,
    /// The aggregate has been decrypted and can no longer change.
    AlreadyDecrypted,
    /// Payment has already been requested.
    PaymentAlreadyRequested,
    /// The operation was given fewer accounts than it needs.
    NotEnoughAccounts,
}

/// The ordered policy weights.
#[derive(Clone, Debug)]
pub struct Policies {
    pub is_initialized: bool,
    pub scalars: Vec<Scalar>,
}

/// One encrypted signal and the index of the policy that weights it.
#[derive(Clone, Copy, Debug, PartialEq, Eq)]
pub struct Interaction {
    pub policy_index: u8,
    pub ciphertext: Ciphertext,
}

/// A user account.
#[derive(Clone, Copy, Debug, PartialEq, Eq)]
pub struct User {
    pub is_initialized: bool,
    pub encrypted_aggregate: Ciphertext,
    pub decrypted_aggregate: Option<GroupElement>,
    pub proof_verified: bool,
    pub payment_requested: bool,
    /// The key that the aggregate is encrypted under, recorded by the first
    /// aggregation and fixed from then on.
    pub public_key: Option<GroupElement>,
}

pub open spec fn scalars_wf(s: Seq<Scalar>) -> bool {
    forall|i: int| 0 <= i < s.len() ==> #[trigger] s[i].wf()
}

pub open spec fn interactions_wf(s: Seq<Interaction>) -> bool {
    forall|i: int| 0 <= i < s.len() ==> #[trigger] s[i].ciphertext.wf()
}

/// Every interaction names an existing policy.
pub open spec fn indices_in_range(s: Seq<Interaction>, n: int) -> bool {
    forall|i: int| 0 <= i < s.len() ==> (#[trigger] s[i].policy_index as int) < n
}

/// The weight of an interaction, as an integer below the group order.
pub open spec fn weight_of(x: Interaction, weights: Seq<Scalar>) -> int {
    weights[x.policy_index as int].model()
}

/// The homomorphic sum of the weighted interactions, in exponents.
pub open spec fn weighted_sum(s: Seq<Interaction>, weights: Seq<Scalar>) -> CiphertextModel
    decreases s.len(),
{
    if s.len() == 0 {
        (0, 0)
    } else {
        combine_model(
            weighted_sum(s.drop_last(), weights),
            scale_model(s.last().ciphertext.model(), weight_of(s.last(), weights)),
        )
    }
}

/// Initializing policies: refused once initialized, else the weights are
/// stored in order.
pub open spec fn policies_initialize_step(
    u: Policies,
    scalars: Seq<Scalar>,
    r: Result<(), ThemisError>,
    n: Policies,
) -> bool {
    if u.is_initialized {
        r == Err::<(), ThemisError>(ThemisError::AlreadyInitialized) && n == u
    } else {
        r is Ok && n.is_initialized && n.scalars@ == scalars
    }
}

/// Initializing a user: refused once initialized, else the account is in
/// use with the identity as its aggregate and nothing decrypted.
pub open spec fn initialize_step(u: User, r: Result<(), ThemisError>, n: User) -> bool {
    if u.is_initialized {
        r == Err::<(), ThemisError>(ThemisError::AlreadyInitialized) && n == u
    } else {
        &&& r is Ok
        &&& n.is_initialized
        &&& n.encrypted_aggregate.model() == (0int, 0int)
        &&& n.decrypted_aggregate.is_none()
        &&& !n.proof_verified
        &&& !n.payment_requested
        &&& n.public_key.is_none()
    }
}

/// Aggregation: the weighted interactions are added to the running
/// aggregate. The first aggregation records the public key; a later one
/// under another key is refused, so a recorded key never changes.
pub open spec fn calculate_aggregate_step(
    u: User,
    interactions: Seq<Interaction>,
    public_key: GroupElement,
    policies: Policies,
    r: Result<(), ThemisError>,
    n: User,
) -> bool {
    if !u.is_initialized || !policies.is_initialized {
        r == Err::<(), ThemisError>(ThemisError::NotInitialized) && n == u
    } else if u.proof_verified {
        r == Err::<(), ThemisError>(ThemisError::AlreadyDecrypted) && n == u
    } else if u.public_key.is_some() && u.public_key != Some(public_key) {
        r == Err::<(), ThemisError>(ThemisError::StateMismatch) && n == u
    } else if !indices_in_range(interactions, policies.scalars@.len() as int) {
        r == Err::<(), ThemisError>(ThemisError::IndexOutOfRange) && n == u
    } else {
        &&& r is Ok
        &&& n.encrypted_aggregate.model() == combine_model(
            u.encrypted_aggregate.model(),
            weighted_sum(interactions, policies.scalars@),
        )
        &&& n.public_key == Some(public_key)
        &&& n.is_initialized
        &&& n.decrypted_aggregate == u.decrypted_aggregate
        &&& n.proof_verified == u.proof_verified
        &&& n.payment_requested == u.payment_requested
    }
}

/// Proof submission: a proof that verifies against the stored aggregate
/// and key records the plaintext.
pub open spec fn submit_proof_step(
    u: User,
    plaintext: GroupElement,
    announcement_g: GroupElement,
    announcement_ctx: GroupElement,
    response: Scalar,
    r: Result<(), ThemisError>,
    n: User,
) -> bool {
    if !u.is_initialized {
        r == Err::<(), ThemisError>(ThemisError::NotInitialized) && n == u
    } else if u.proof_verified {
        r == Err::<(), ThemisError>(ThemisError::AlreadyDecrypted) && n == u
    } else if u.encrypted_aggregate.model() == (0int, 0int) {
        r == Err::<(), ThemisError>(ThemisError::AggregateNotReady) && n == u
    } else if !proof_accepted(
        u.public_key.unwrap(),
        u.encrypted_aggregate,
        plaintext,
        announcement_g,
        announcement_ctx,
        response,
    ) {
        r == Err::<(), ThemisError>(ThemisError::InvalidProof) && n == u
    } else {
        r is Ok && n == (User { decrypted_aggregate: Some(plaintext), proof_verified: true, ..u })
    }
}

/// Payment request: accepted once, and only for exactly the stored
/// aggregate and verified plaintext.
pub open spec fn request_payment_step(
    u: User,
    encrypted_aggregate: Ciphertext,
    decrypted_aggregate: GroupElement,
    r: Result<(), ThemisError>,
    n: User,
) -> bool {
    if !u.is_initialized {
        r == Err::<(), ThemisError>(ThemisError::NotInitialized) && n == u
    } else if u.payment_requested {
        r == Err::<(), ThemisError>(ThemisError::PaymentAlreadyRequested) && n == u
    } else if !u.proof_verified || u.encrypted_aggregate != encrypted_aggregate
        || u.decrypted_aggregate != Some(decrypted_aggregate) {
        r == Err::<(), ThemisError>(ThemisError::StateMismatch) && n == u
    } else {
        r is Ok && n == (User { payment_requested: true, ..u })
    }
}

impl Policies {
    pub open spec fn wf(&self) -> bool {
        scalars_wf(self.scalars@)
    }

    /// An uninitialized account without weights.
    pub fn new() -> (r: Policies)
        ensures
            r.wf(),
            !r.is_initialized,
            r.scalars@.len() == 0,
    {
        Policies { is_initialized: false, scalars: Vec::new() }
    }

    /// Stores the weights, once.
    pub fn initialize(&mut self, scalars: Vec<Scalar>) -> (r: Result<(), ThemisError>)
        requires
            old(self).wf(),
            scalars_wf(scalars@),
        ensures
            final(self).wf(),
            policies_initialize_step(*old(self), scalars@, r, *final(self)),
    {
        if self.is_initialized {
            return Err(ThemisError::AlreadyInitialized);
        }
        self.is_initialized = true;
        self.scalars = scalars;
        Ok(())
    }

    /// The weight at `index`.
    pub fn weight_at(&self, index: u8) -> (r: Result<Scalar, ThemisError>)
        ensures
            (index as int) < self.scalars@.len() ==> r == Ok::<Scalar, ThemisError>(
                self.scalars@[index as int],
            ),
            (index as int) >= self.scalars@.len() ==> r == Err::<Scalar, ThemisError>(
                ThemisError::IndexOutOfRange,
            ),
    {
        if (index as usize) < self.scalars.len() {
            Ok(self.scalars[index as usize])
        } else {
            Err(ThemisError::IndexOutOfRange)
        }
    }
}

impl User {
    pub open spec fn wf(&self) -> bool {
        &&& self.encrypted_aggregate.wf()
        &&& self.public_key.is_some() ==> self.public_key.unwrap().wf() && self.is_initialized
        &&& self.public_key.is_none() ==> self.encrypted_aggregate.model() == (0int, 0int)
        &&& self.decrypted_aggregate.is_some() ==> self.decrypted_aggregate.unwrap().wf()
        &&& self.decrypted_aggregate.is_some() == self.proof_verified
        &&& self.payment_requested ==> self.proof_verified
        &&& self.proof_verified ==> self.is_initialized
    }

    /// An uninitialized account: identity aggregate, nothing decrypted.
    pub fn new() -> (r: User)
        ensures
            r.wf(),
            !r.is_initialized,
            r.encrypted_aggregate.model() == (0int, 0int),
            r.decrypted_aggregate.is_none(),
            !r.proof_verified,
            !r.payment_requested,
            r.public_key.is_none(),
    {
        User {
            is_initialized: false,
            encrypted_aggregate: identity_ciphertext(),
            decrypted_aggregate: None,
            proof_verified: false,
            payment_requested: false,
            public_key: None,
        }
    }

    /// Marks the account as in use, with the identity as its aggregate.
    pub fn initialize(&mut self) -> (r: Result<(), ThemisError>)
        requires
            old(self).wf(),
        ensures
            final(self).wf(),
            initialize_step(*old(self), r, *final(self)),
    {
        if self.is_initialized {
            return Err(ThemisError::AlreadyInitialized);
        }
        self.is_initialized = true;
        self.encrypted_aggregate = identity_ciphertext();
        self.public_key = None;
        Ok(())
    }

    /// Folds the weighted interactions into the running aggregate.
    pub fn calculate_aggregate(
        &mut self,
        interactions: &Vec<Interaction>,
        public_key: &GroupElement,
        policies: &Policies,
    ) -> (r: Result<(), ThemisError>)
        requires
            old(self).wf(),
            policies.wf(),
            public_key.wf(),
            interactions_wf(interactions@),
        ensures
            final(self).wf(),
            calculate_aggregate_step(*old(self), interactions@, *public_key, *policies, r, *final(self)),
    {
        if !self.is_initialized || !policies.is_initialized {
            return Err(ThemisError::NotInitialized);
        }
        if self.proof_verified {
            return Err(ThemisError::AlreadyDecrypted);
        }
        if let Some(recorded) = self.public_key {
            if !recorded.equals(public_key) {
                return Err(ThemisError::StateMismatch);
            }
            proof {
                assert(recorded.bytes =~= public_key.bytes);
            }
        }
        let mut acc = identity_ciphertext();
        let mut i: usize = 0;
        while i < interactions.len()
            invariant
                0 <= i <= interactions@.len(),
                *self == *old(self),
                old(self).wf(),
                self.is_initialized && policies.is_initialized && !self.proof_verified,
                self.public_key.is_none() || self.public_key == Some(*public_key),
                policies.wf(),
                interactions_wf(interactions@),
                acc.wf(),
                indices_in_range(interactions@.subrange(0, i as int), policies.scalars@.len() as int),
                acc.model() == weighted_sum(interactions@.subrange(0, i as int), policies.scalars@),
            decreases interactions@.len() - i,
        {
            let x = interactions[i];
            let w = match policies.weight_at(x.policy_index) {
                Ok(w) => w,
                Err(e) => {
                    proof {
                        assert(!indices_in_range(interactions@, policies.scalars@.len() as int));
                    }
                    return Err(e);
                },
            };
            let weighted = scale(&x.ciphertext, &w);
            acc = combine(&acc, &weighted);
            proof {
                let s = interactions@.subrange(0, i + 1);
                assert(s.drop_last() =~= interactions@.subrange(0, i as int));
                assert(s.last() == x);
            }
            i = i + 1;
        }
        proof {
            assert(interactions@.subrange(0, i as int) =~= interactions@);
        }
        self.encrypted_aggregate = combine(&self.encrypted_aggregate, &acc);
        self.public_key = Some(*public_key);
        Ok(())
    }

    /// Accepts a proof that `plaintext` decrypts the aggregate and records
    /// it.
    pub fn submit_proof_decryption(
        &mut self,
        plaintext: &GroupElement,
        announcement_g: &GroupElement,
        announcement_ctx: &GroupElement,
        response: &Scalar,
    ) -> (r: Result<(), ThemisError>)
        requires
            old(self).wf(),
            plaintext.wf(),
            announcement_g.wf(),
            announcement_ctx.wf(),
            response.wf(),
        ensures
            final(self).wf(),
            submit_proof_step(*old(self), *plaintext, *announcement_g, *announcement_ctx, *response, r, *final(self)),
    {
        if !self.is_initialized {
            return Err(ThemisError::NotInitialized);
        }
        if self.proof_verified {
            return Err(ThemisError::AlreadyDecrypted);
        }
        let identity = identity_ciphertext();
        if self.encrypted_aggregate.equals(&identity) {
            return Err(ThemisError::AggregateNotReady);
        }
        let key = match self.public_key {
            Some(k) => k,
            None => {
                return Err(ThemisError::AggregateNotReady);
            },
        };
        if !verify_decryption_proof(
            &key,
            &self.encrypted_aggregate,
            plaintext,
            announcement_g,
            announcement_ctx,
            response,
        ) {
            return Err(ThemisError::InvalidProof);
        }
        self.decrypted_aggregate = Some(*plaintext);
        self.proof_verified = true;
        Ok(())
    }

    /// Records a payment request for the verified aggregate. The proof token
    /// is not verified again: the proof was verified when it was submitted,
    /// and the request must name exactly the stored aggregate and plaintext.
    pub fn request_payment(
        &mut self,
        encrypted_aggregate: &Ciphertext,
        decrypted_aggregate: &GroupElement,
        proof_correct_decryption: &GroupElement,
    ) -> (r: Result<(), ThemisError>)
        requires
            old(self).wf(),
            encrypted_aggregate.wf(),
            decrypted_aggregate.wf(),
        ensures
            final(self).wf(),
            request_payment_step(*old(self), *encrypted_aggregate, *decrypted_aggregate, r, *final(self)),
    {
        if !self.is_initialized {
            return Err(ThemisError::NotInitialized);
        }
        if self.payment_requested {
            return Err(ThemisError::PaymentAlreadyRequested);
        }
        let stored = match self.decrypted_aggregate {
            Some(d) => d,
            None => {
                return Err(ThemisError::StateMismatch);
            },
        };
        if !self.encrypted_aggregate.equals(encrypted_aggregate) || !stored.equals(
            decrypted_aggregate,
        ) {
            proof {
                if stored.bytes@ == decrypted_aggregate.bytes@ {
                    assert(stored.bytes =~= decrypted_aggregate.bytes);
                }
            }
            return Err(ThemisError::StateMismatch);
        }
        proof {
            assert(stored.bytes =~= decrypted_aggregate.bytes);
        }
        self.payment_requested = true;
        Ok(())
    }
}

/// The aggregate after one `calculate_aggregate` call per batch, in order,
/// starting from `start`.
pub open spec fn aggregate_after(
    start: CiphertextModel,
    batches: Seq<Seq<Interaction>>,
    weights: Seq<Scalar>,
) -> CiphertextModel
    decreases batches.len(),
{
    if batches.len() == 0 {
        start
    } else {
        combine_model(
            aggregate_after(start, batches.drop_last(), weights),
            weighted_sum(batches.last(), weights),
        )
    }
}

/// All interactions of the batches, in order.
pub open spec fn all_interactions(batches: Seq<Seq<Interaction>>) -> Seq<Interaction>
    decreases batches.len(),
{
    if batches.len() == 0 {
        Seq::empty()
    } else {
        all_interactions(batches.drop_last()) + batches.last()
    }
}

pub open spec fn is_reduced(c: CiphertextModel) -> bool {
    0 <= c.0 < group_order() && 0 <= c.1 < group_order()
}

proof fn lemma_combine_assoc(a: CiphertextModel, b: CiphertextModel, c: CiphertextModel)
    ensures
        combine_model(combine_model(a, b), c) == combine_model(a, combine_model(b, c)),
{
    lemma_mod_idem(a.0 + b.0);
    lemma_mod_idem(a.1 + b.1);
    lemma_mod_idem(b.0 + c.0);
    lemma_mod_idem(b.1 + c.1);
    lemma_cong_add((a.0 + b.0) % group_order(), c.0, a.0 + b.0, c.0);
    lemma_cong_add(a.0, (b.0 + c.0) % group_order(), a.0, b.0 + c.0);
    lemma_cong_add((a.1 + b.1) % group_order(), c.1, a.1 + b.1, c.1);
    lemma_cong_add(a.1, (b.1 + c.1) % group_order(), a.1, b.1 + c.1);
    assert(a.0 + b.0 + c.0 == a.0 + (b.0 + c.0));
    assert(a.1 + b.1 + c.1 == a.1 + (b.1 + c.1));
}

proof fn lemma_combine_zero(a: CiphertextModel)
    requires
        is_reduced(a),
    ensures
        combine_model(a, (0, 0)) == a,
        combine_model((0, 0), a) == a,
{
    lemma_mod_small(a.0);
    lemma_mod_small(a.1);
}

proof fn lemma_combine_reduced(a: CiphertextModel, b: CiphertextModel)
    ensures
        is_reduced(combine_model(a, b)),
        is_reduced(scale_model(a, b.0)),
{
    lemma_mod_idem(a.0 + b.0);
    lemma_mod_idem(a.1 + b.1);
    lemma_mod_idem(a.0 * b.0);
    lemma_mod_idem(a.1 * b.0);
}

proof fn lemma_weighted_sum_reduced(s: Seq<Interaction>, weights: Seq<Scalar>)
    ensures
        is_reduced(weighted_sum(s, weights)),
    decreases s.len(),
{
    if s.len() > 0 {
        lemma_combine_reduced(
            weighted_sum(s.drop_last(), weights),
            scale_model(s.last().ciphertext.model(), weight_of(s.last(), weights)),
        );
    }
}

/// The weighted sum of a concatenation is the combination of the parts.
pub proof fn lemma_weighted_sum_concat(
    s1: Seq<Interaction>,
    s2: Seq<Interaction>,
    weights: Seq<Scalar>,
)
    ensures
        weighted_sum(s1 + s2, weights) == combine_model(
            weighted_sum(s1, weights),
            weighted_sum(s2, weights),
        ),
    decreases s2.len(),
{
    lemma_weighted_sum_reduced(s1, weights);
    if s2.len() == 0 {
        assert(s1 + s2 =~= s1);
        lemma_combine_zero(weighted_sum(s1, weights));
    } else {
        let x = s2.last();
        let f = scale_model(x.ciphertext.model(), weight_of(x, weights));
        assert((s1 + s2).drop_last() =~= s1 + s2.drop_last());
        assert((s1 + s2).last() == x);
        lemma_weighted_sum_concat(s1, s2.drop_last(), weights);
        lemma_combine_assoc(weighted_sum(s1, weights), weighted_sum(s2.drop_last(), weights), f);
    }
}

proof fn lemma_weighted_sum_single(x: Interaction, weights: Seq<Scalar>)
    ensures
        weighted_sum(seq![x], weights) == scale_model(
            x.ciphertext.model(),
            weight_of(x, weights),
        ),
{
    let s = seq![x];
    assert(s.drop_last() =~= Seq::<Interaction>::empty());
    assert(s.last() == x);
    assert(weighted_sum(s.drop_last(), weights) == (0int, 0int));
    let f = scale_model(x.ciphertext.model(), weight_of(x, weights));
    lemma_combine_reduced(x.ciphertext.model(), (weight_of(x, weights), 0));
    lemma_combine_zero(f);
}

/// The weighted sum does not depend on the order of the interactions.
pub proof fn lemma_weighted_sum_permutation(
    s1: Seq<Interaction>,
    s2: Seq<Interaction>,
    weights: Seq<Scalar>,
)
    requires
        s1.to_multiset() == s2.to_multiset(),
    ensures
        weighted_sum(s1, weights) == weighted_sum(s2, weights),
    decreases s1.len(),
{
    broadcast use vstd::seq_lib::group_to_multiset_ensures;
    broadcast use vstd::multiset::group_multiset_axioms;

    if s1.len() == 0 {
        assert(s1.to_multiset().len() == 0);
        assert(s2.to_multiset().len() == s2.len());
        assert(s2.len() == 0);
        assert(s2 =~= s1);
    } else {
        let x = s1.last();
        let rest = s1.drop_last();
        assert(s1 =~= rest.push(x));
        assert(s1.to_multiset() =~= rest.to_multiset().insert(x));
        assert(s2.to_multiset().count(x) > 0);
        assert(s2.contains(x));
        let i = choose|i: int| 0 <= i < s2.len() && s2[i] == x;
        let others = s2.remove(i);
        assert(others.to_multiset() =~= s2.to_multiset().remove(x));
        assert(rest.to_multiset() =~= others.to_multiset());
        lemma_weighted_sum_permutation(rest, others, weights);
        let a = s2.subrange(0, i);
        let b = s2.subrange(i + 1, s2.len() as int);
        assert(s2 =~= a + seq![x] + b);
        assert(others =~= a + b);
        let f = scale_model(x.ciphertext.model(), weight_of(x, weights));
        let (wa, wb) = (weighted_sum(a, weights), weighted_sum(b, weights));
        lemma_weighted_sum_concat(a + seq![x], b, weights);
        lemma_weighted_sum_concat(a, seq![x], weights);
        lemma_weighted_sum_single(x, weights);
        lemma_weighted_sum_concat(a, b, weights);
        lemma_combine_assoc(wa, f, wb);
        lemma_combine_assoc(wa, wb, f);
        assert(combine_model(f, wb) == combine_model(wb, f));
    }
}

/// Aggregating batch after batch gives the same as aggregating all their
/// interactions at once.
pub proof fn lemma_aggregate_after_batches(
    start: CiphertextModel,
    batches: Seq<Seq<Interaction>>,
    weights: Seq<Scalar>,
)
    requires
        is_reduced(start),
    ensures
        aggregate_after(start, batches, weights) == combine_model(
            start,
            weighted_sum(all_interactions(batches), weights),
        ),
    decreases batches.len(),
{
    if batches.len() == 0 {
        lemma_combine_zero(start);
    } else {
        let init = batches.drop_last();
        lemma_aggregate_after_batches(start, init, weights);
        lemma_weighted_sum_concat(all_interactions(init), batches.last(), weights);
        lemma_combine_assoc(
            start,
            weighted_sum(all_interactions(init), weights),
            weighted_sum(batches.last(), weights),
        );
    }
}

/// Order independence of aggregation: two ways of submitting the same
/// interactions, in any order and split into any batches of
/// `calculate_aggregate` calls, leave the same aggregate.
pub proof fn lemma_aggregation_order_independent(
    start: CiphertextModel,
    batches1: Seq<Seq<Interaction>>,
    batches2: Seq<Seq<Interaction>>,
    weights: Seq<Scalar>,
)
    requires
        is_reduced(start),
        all_interactions(batches1).to_multiset() == all_interactions(batches2).to_multiset(),
    ensures
        aggregate_after(start, batches1, weights) == aggregate_after(start, batches2, weights),
{
    lemma_aggregate_after_batches(start, batches1, weights);
    lemma_aggregate_after_batches(start, batches2, weights);
    lemma_weighted_sum_permutation(
        all_interactions(batches1),
        all_interactions(batches2),
        weights,
    );
}

proof fn lemma_same_ciphertext(a: Ciphertext, b: Ciphertext)
    requires
        a.wf(),
        b.wf(),
        a.model() == b.model(),
    ensures
        a == b,
{
    crate::group::lemma_model_eq(a.c1, b.c1);
    crate::group::lemma_model_eq(a.c2, b.c2);
    assert(a.c1.bytes =~= b.c1.bytes);
    assert(a.c2.bytes =~= b.c2.bytes);
}

/// Two successful aggregations of the same interactions in different orders
/// leave the same encrypted aggregate.
pub proof fn lemma_calculate_aggregate_order_independent(
    u: User,
    s1: Seq<Interaction>,
    s2: Seq<Interaction>,
    public_key: GroupElement,
    policies: Policies,
    n1: User,
    n2: User,
)
    requires
        n1.wf(),
        n2.wf(),
        s1.to_multiset() == s2.to_multiset(),
        calculate_aggregate_step(u, s1, public_key, policies, Ok(()), n1),
        calculate_aggregate_step(u, s2, public_key, policies, Ok(()), n2),
    ensures
        n1.encrypted_aggregate == n2.encrypted_aggregate,
{
    lemma_weighted_sum_permutation(s1, s2, policies.scalars@);
    lemma_same_ciphertext(n1.encrypted_aggregate, n2.encrypted_aggregate);
}

/// Aggregating `s1` and then `s2` in two successful calls leaves the same
/// encrypted aggregate as aggregating `s1 + s2` in one.
pub proof fn lemma_calculate_aggregate_split(
    u: User,
    s1: Seq<Interaction>,
    s2: Seq<Interaction>,
    public_key: GroupElement,
    policies: Policies,
    middle: User,
    last: User,
    whole: User,
)
    requires
        last.wf(),
        whole.wf(),
        calculate_aggregate_step(u, s1, public_key, policies, Ok(()), middle),
        calculate_aggregate_step(middle, s2, public_key, policies, Ok(()), last),
        calculate_aggregate_step(u, s1 + s2, public_key, policies, Ok(()), whole),
    ensures
        last.encrypted_aggregate == whole.encrypted_aggregate,
{
    let w = policies.scalars@;
    lemma_weighted_sum_concat(s1, s2, w);
    lemma_combine_assoc(u.encrypted_aggregate.model(), weighted_sum(s1, w), weighted_sum(s2, w));
    lemma_same_ciphertext(last.encrypted_aggregate, whole.encrypted_aggregate);
}

/// An honestly built proof for the true decryption of a ready aggregate,
/// under the recorded key, is accepted and its plaintext recorded.
pub proof fn lemma_submit_honest_proof(
    u: User,
    sk: Scalar,
    w: Scalar,
    plaintext: GroupElement,
    announcement_g: GroupElement,
    announcement_ctx: GroupElement,
    response: Scalar,
    r: Result<(), ThemisError>,
    n: User,
)
    requires
        u.wf(),
        u.is_initialized,
        !u.proof_verified,
        u.encrypted_aggregate.model() != (0int, 0int),
        sk.wf(),
        w.wf(),
        plaintext.wf(),
        announcement_g.wf(),
        announcement_ctx.wf(),
        response.wf(),
        u.public_key.is_some() ==> u.public_key.unwrap().model() == sk.model(),
        plaintext.model() == decrypt_model(u.encrypted_aggregate.model(), sk.model()),
        announcement_g.model() == w.model(),
        announcement_ctx.model() == (w.model() * u.encrypted_aggregate.c1.model())
            % group_order(),
        u.public_key.is_some() ==> response.model() == (w.model() + challenge_of(
            u.public_key.unwrap(),
            u.encrypted_aggregate,
            plaintext,
            announcement_g,
            announcement_ctx,
        ) * sk.model()) % group_order(),
        submit_proof_step(u, plaintext, announcement_g, announcement_ctx, response, r, n),
    ensures
        r is Ok,
        n.decrypted_aggregate == Some(plaintext),
        n.proof_verified,
        n.encrypted_aggregate == u.encrypted_aggregate,
{
    lemma_honest_proof_accepted(
        sk,
        u.public_key.unwrap(),
        u.encrypted_aggregate,
        plaintext,
        w,
        announcement_g,
        announcement_ctx,
        response,
    );
}

} // verus!
