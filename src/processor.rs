//! The five operations on account buffers, dispatched from one instruction
//! type. Each decodes the accounts it touches, applies the state-machine
//! step, and returns the new bytes of the one account it changes (the user
//! account, or the policies account for `InitializePoliciesAccount`).
use vstd::prelude::*;
use crate::codec::{
    decode_policies, decode_user, encode_policies, encode_user, policies_bytes, policies_decodes,
    user_bytes, user_decodes,
};
use crate::elgamal::Ciphertext;
use crate::group::{GroupElement, Scalar};
use crate::state::{
    calculate_aggregate_step, initialize_step, interactions_wf, policies_initialize_step,
    request_payment_step, scalars_wf, submit_proof_step, Interaction, Policies, ThemisError, User,
};

verus! {

/// An operation and its parameters.
pub enum ThemisInstruction {
    /// Accounts: user.
    InitializeUserAccount,
    /// Accounts: policies.
    InitializePoliciesAccount { scalars: Vec<Scalar> },
    /// Accounts: user, policies.
    CalculateAggregate { encrypted_interactions: Vec<Interaction>, public_key: GroupElement },
    /// Accounts: user.
    SubmitProofDecryption {
        plaintext: GroupElement,
        announcement_g: GroupElement,
        announcement_ctx: GroupElement,
        response: Scalar,
    },
    /// Accounts: user.
    RequestPayment {
        encrypted_aggregate: Ciphertext,
        decrypted_aggregate: GroupElement,
        proof_correct_decryption: GroupElement,
    },
}

impl ThemisInstruction {
    /// Every point and scalar that the instruction carries is well formed.
    pub open spec fn wf(&self) -> bool {
        match self {
            ThemisInstruction::InitializeUserAccount => true,
            ThemisInstruction::InitializePoliciesAccount { scalars } => scalars_wf(scalars@),
            ThemisInstruction::CalculateAggregate { encrypted_interactions, public_key } => {
                interactions_wf(encrypted_interactions@) && public_key.wf()
            },
            ThemisInstruction::SubmitProofDecryption {
                plaintext,
                announcement_g,
                announcement_ctx,
                response,
            } => plaintext.wf() && announcement_g.wf() && announcement_ctx.wf() && response.wf(),
            ThemisInstruction::RequestPayment {
                encrypted_aggregate,
                decrypted_aggregate,
                proof_correct_decryption,
            } => encrypted_aggregate.wf() && decrypted_aggregate.wf()
                && proof_correct_decryption.wf(),
        }
    }

    /// How many accounts the operation needs.
    pub open spec fn accounts_needed(&self) -> nat {
        match self {
            ThemisInstruction::CalculateAggregate { .. } => 2,
            _ => 1,
        }
    }
}

/// The result of an operation on one user account, given the step that it
/// applies: malformed bytes give `DecodeError`; otherwise the step's error,
/// or the layout of the account that the step leaves.
pub open spec fn user_outcome(
    acc: Seq<u8>,
    r: Result<Vec<u8>, ThemisError>,
    step: spec_fn(User, Result<(), ThemisError>, User) -> bool,
) -> bool {
    match r {
        Ok(out) => exists|u: User, n: User|
            #![trigger user_decodes(acc, u), user_bytes(n)]
            user_decodes(acc, u) && step(u, Ok(()), n) && n.wf() && user_bytes(n) == out@,
        Err(e) => if e == ThemisError::DecodeError {
            forall|u: User| !user_decodes(acc, u)
        } else {
            exists|u: User| #[trigger] user_decodes(acc, u) && step(u, Err(e), u)
        },
    }
}

/// The result of aggregation on a user and a policies account.
pub open spec fn aggregate_outcome(
    user_acc: Seq<u8>,
    policies_acc: Seq<u8>,
    interactions: Seq<Interaction>,
    public_key: GroupElement,
    r: Result<Vec<u8>, ThemisError>,
) -> bool {
    match r {
        Ok(out) => exists|u: User, p: Policies, n: User|
            #![trigger user_decodes(user_acc, u), policies_decodes(policies_acc, p), user_bytes(n)]
            user_decodes(user_acc, u) && policies_decodes(policies_acc, p)
                && calculate_aggregate_step(u, interactions, public_key, p, Ok(()), n) && n.wf()
                && user_bytes(n) == out@,
        Err(e) => if e == ThemisError::DecodeError {
            (forall|u: User| !user_decodes(user_acc, u)) || (forall|p: Policies|
                !policies_decodes(policies_acc, p))
        } else {
            exists|u: User, p: Policies, n: User|
                #![trigger user_decodes(user_acc, u), policies_decodes(policies_acc, p), calculate_aggregate_step(u, interactions, public_key, p, Err(e), n)]
                user_decodes(user_acc, u) && policies_decodes(policies_acc, p)
                    && calculate_aggregate_step(u, interactions, public_key, p, Err(e), n)
        },
    }
}

/// The result of initializing a policies account with `scalars`.
pub open spec fn policies_outcome(
    acc: Seq<u8>,
    scalars: Seq<Scalar>,
    r: Result<Vec<u8>, ThemisError>,
) -> bool {
    match r {
        Ok(out) => exists|p: Policies, n: Policies|
            #![trigger policies_decodes(acc, p), policies_bytes(n)]
            scalars.len() < 65536 && policies_decodes(acc, p) && policies_initialize_step(
                p,
                scalars,
                Ok(()),
                n,
            ) && n.wf() && policies_bytes(n) == out@,
        Err(e) => if e == ThemisError::DecodeError {
            forall|p: Policies| !policies_decodes(acc, p)
        } else if e == ThemisError::IndexOutOfRange {
            scalars.len() >= 65536
        } else {
            exists|p: Policies, n: Policies|
                #![trigger policies_decodes(acc, p), policies_initialize_step(p, scalars, Err(e), n)]
                policies_decodes(acc, p) && policies_initialize_step(p, scalars, Err(e), n)
        },
    }
}

/// Applies the instruction to the accounts and returns the new bytes of the
/// account that it changes: the policies account for
/// `InitializePoliciesAccount`, else the user account. The user account
/// comes first; aggregation takes the policies account second. A list of
/// 65536 weights or more has no layout and is refused with `IndexOutOfRange`.
pub fn process_instruction(instruction: &ThemisInstruction, accounts: &Vec<Vec<u8>>) -> (r: Result<
    Vec<u8>,
    ThemisError,
>)
    requires
        instruction.wf(),
    ensures
        accounts@.len() < instruction.accounts_needed() ==> r == Err::<Vec<u8>, ThemisError>(
            ThemisError::NotEnoughAccounts,
        ),
        accounts@.len() >= instruction.accounts_needed() ==> match instruction {
            ThemisInstruction::InitializeUserAccount => user_outcome(
                accounts@[0]@,
                r,
                |u: User, s: Result<(), ThemisError>, n: User| initialize_step(u, s, n),
            ),
            ThemisInstruction::InitializePoliciesAccount { scalars } => policies_outcome(
                accounts@[0]@,
                scalars@,
                r,
            ),
            ThemisInstruction::CalculateAggregate { encrypted_interactions, public_key } =>
                aggregate_outcome(
                accounts@[0]@,
                accounts@[1]@,
                encrypted_interactions@,
                *public_key,
                r,
            ),
            ThemisInstruction::SubmitProofDecryption {
                plaintext,
                announcement_g,
                announcement_ctx,
                response,
            } => user_outcome(
                accounts@[0]@,
                r,
                |u: User, s: Result<(), ThemisError>, n: User|
                    submit_proof_step(
                        u,
                        *plaintext,
                        *announcement_g,
                        *announcement_ctx,
                        *response,
                        s,
                        n,
                    ),
            ),
            ThemisInstruction::RequestPayment {
                encrypted_aggregate,
                decrypted_aggregate,
                proof_correct_decryption,
            } => user_outcome(
                accounts@[0]@,
                r,
                |u: User, s: Result<(), ThemisError>, n: User|
                    request_payment_step(u, *encrypted_aggregate, *decrypted_aggregate, s, n),
            ),
        },
{
    if accounts.len() < 1 {
        return Err(ThemisError::NotEnoughAccounts);
    }
    match instruction {
        ThemisInstruction::InitializeUserAccount => {
            let mut user = match decode_user(&accounts[0]) {
                Ok(u) => u,
                Err(e) => {
                    return Err(e);
                },
            };
            let ghost u0 = user;
            match user.initialize() {
                Ok(()) => {
                    let out = encode_user(&user);
                    proof {
                        assert(user_decodes(accounts@[0]@, u0) && user_bytes(user) == out@);
                    }
                    Ok(out)
                },
                Err(e) => {
                    proof {
                        assert(user_decodes(accounts@[0]@, u0));
                        assert(initialize_step(u0, Err(e), user));
                    }
                    Err(e)
                },
            }
        },
        ThemisInstruction::InitializePoliciesAccount { scalars } => {
            let mut policies = match decode_policies(&accounts[0]) {
                Ok(p) => p,
                Err(e) => {
                    return Err(e);
                },
            };
            if scalars.len() >= 65536 {
                return Err(ThemisError::IndexOutOfRange);
            }
            let ghost p0 = policies;
            match policies.initialize(scalars.clone()) {
                Ok(()) => {
                    let out = encode_policies(&policies);
                    proof {
                        assert(policies_decodes(accounts@[0]@, p0) && policies_bytes(policies)
                            == out@);
                    }
                    Ok(out)
                },
                Err(e) => {
                    proof {
                        assert(policies_decodes(accounts@[0]@, p0));
                        assert(policies_initialize_step(p0, scalars@, Err(e), policies));
                    }
                    Err(e)
                },
            }
        },
        ThemisInstruction::CalculateAggregate { encrypted_interactions, public_key } => {
            if accounts.len() < 2 {
                return Err(ThemisError::NotEnoughAccounts);
            }
            let mut user = match decode_user(&accounts[0]) {
                Ok(u) => u,
                Err(e) => {
                    return Err(e);
                },
            };
            let policies = match decode_policies(&accounts[1]) {
                Ok(p) => p,
                Err(e) => {
                    return Err(e);
                },
            };
            let ghost u0 = user;
            match user.calculate_aggregate(encrypted_interactions, public_key, &policies) {
                Ok(()) => {
                    let out = encode_user(&user);
                    proof {
                        assert(user_decodes(accounts@[0]@, u0) && policies_decodes(
                            accounts@[1]@,
                            policies,
                        ) && user_bytes(user) == out@);
                    }
                    Ok(out)
                },
                Err(e) => {
                    proof {
                        assert(user_decodes(accounts@[0]@, u0));
                        assert(policies_decodes(accounts@[1]@, policies));
                        assert(calculate_aggregate_step(
                            u0,
                            encrypted_interactions@,
                            *public_key,
                            policies,
                            Err(e),
                            user,
                        ));
                    }
                    Err(e)
                },
            }
        },
        ThemisInstruction::SubmitProofDecryption {
            plaintext,
            announcement_g,
            announcement_ctx,
            response,
        } => {
            let mut user = match decode_user(&accounts[0]) {
                Ok(u) => u,
                Err(e) => {
                    return Err(e);
                },
            };
            let ghost u0 = user;
            match user.submit_proof_decryption(plaintext, announcement_g, announcement_ctx, response) {
                Ok(()) => {
                    let out = encode_user(&user);
                    proof {
                        assert(user_decodes(accounts@[0]@, u0) && user_bytes(user) == out@);
                    }
                    Ok(out)
                },
                Err(e) => {
                    proof {
                        assert(user_decodes(accounts@[0]@, u0));
                        assert(submit_proof_step(
                            u0,
                            *plaintext,
                            *announcement_g,
                            *announcement_ctx,
                            *response,
                            Err(e),
                            user,
                        ));
                    }
                    Err(e)
                },
            }
        },
        ThemisInstruction::RequestPayment {
            encrypted_aggregate,
            decrypted_aggregate,
            proof_correct_decryption,
        } => {
            let mut user = match decode_user(&accounts[0]) {
                Ok(u) => u,
                Err(e) => {
                    return Err(e);
                },
            };
            let ghost u0 = user;
            match user.request_payment(
                encrypted_aggregate,
                decrypted_aggregate,
                proof_correct_decryption,
            ) {
                Ok(()) => {
                    let out = encode_user(&user);
                    proof {
                        assert(user_decodes(accounts@[0]@, u0) && user_bytes(user) == out@);
                    }
                    Ok(out)
                },
                Err(e) => {
                    proof {
                        assert(user_decodes(accounts@[0]@, u0));
                        assert(request_payment_step(
                            u0,
                            *encrypted_aggregate,
                            *decrypted_aggregate,
                            Err(e),
                            user,
                        ));
                    }
                    Err(e)
                },
            }
        },
    }
}

} // verus!
