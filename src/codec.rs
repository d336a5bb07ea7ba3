//! Fixed binary layouts of the user and policies accounts.
//!
//! User (133 bytes): `is_initialized` (1), the aggregate's `c1` and `c2`
//! (32 each), the decrypted aggregate (a presence byte, then 32 bytes, zero
//! when absent), `proof_verified` (1), `payment_requested` (1), and the
//! recorded public key (presence byte and 32 bytes, as before). Policies: `is_initialized` (1), the number of weights as a
//! little-endian `u16` (2), then 32 bytes per weight. Flags are 0 or 1. An
//! empty or all-zero buffer stands for a fresh, uninitialized account.
use vstd::prelude::*;
use crate::elgamal::{identity_ciphertext, Ciphertext};
use crate::group::{GroupElement, Scalar};
use crate::state::{scalars_wf, Policies, ThemisError, User};

verus! {

pub const USER_LEN: usize = 133;

pub open spec fn flag_byte(b: bool) -> Seq<u8> {
    if b {
        seq![1u8]
    } else {
        seq![0u8]
    }
}

pub open spec fn zeros(n: nat) -> Seq<u8> {
    Seq::new(n, |i: int| 0u8)
}

pub open spec fn all_zero(b: Seq<u8>) -> bool {
    forall|i: int| 0 <= i < b.len() ==> b[i] == 0
}

/// A presence byte, then the element's encoding, or 32 zero bytes when
/// absent.
pub open spec fn optional_point_bytes(o: Option<GroupElement>) -> Seq<u8> {
    flag_byte(o.is_some()) + match o {
        Some(p) => p.bytes@,
        None => zeros(32),
    }
}

/// The layout of a user account.
pub open spec fn user_bytes(u: User) -> Seq<u8> {
    flag_byte(u.is_initialized) + u.encrypted_aggregate.c1.bytes@
        + u.encrypted_aggregate.c2.bytes@ + optional_point_bytes(u.decrypted_aggregate)
        + flag_byte(u.proof_verified) + flag_byte(u.payment_requested) + optional_point_bytes(
        u.public_key,
    )
}

pub open spec fn scalars_bytes(s: Seq<Scalar>) -> Seq<u8>
    decreases s.len(),
{
    if s.len() == 0 {
        Seq::empty()
    } else {
        scalars_bytes(s.drop_last()) + s.last().bytes@
    }
}

/// The layout of a policies account.
pub open spec fn policies_bytes(p: Policies) -> Seq<u8> {
    flag_byte(p.is_initialized) + seq![
        (p.scalars@.len() % 256) as u8,
        (p.scalars@.len() / 256) as u8,
    ] + scalars_bytes(p.scalars@)
}

/// A fresh, uninitialized user account: identity aggregate and key,
/// nothing decrypted.
pub open spec fn is_fresh_user(u: User) -> bool {
    &&& u.wf()
    &&& !u.is_initialized
    &&& u.encrypted_aggregate.model() == (0int, 0int)
    &&& u.public_key.is_none()
    &&& u.decrypted_aggregate.is_none()
    &&& !u.proof_verified
    &&& !u.payment_requested
}

/// `u` is what the buffer `b` holds.
pub open spec fn user_decodes(b: Seq<u8>, u: User) -> bool {
    if all_zero(b) {
        is_fresh_user(u)
    } else {
        u.wf() && user_bytes(u) == b
    }
}

/// `p` is what the buffer `b` holds.
pub open spec fn policies_decodes(b: Seq<u8>, p: Policies) -> bool {
    if all_zero(b) {
        p.wf() && !p.is_initialized && p.scalars@.len() == 0
    } else {
        p.wf() && p.scalars@.len() < 65536 && policies_bytes(p) == b
    }
}

proof fn lemma_scalars_bytes_chunks(s: Seq<Scalar>)
    ensures
        scalars_bytes(s).len() == 32 * s.len(),
        forall|i: int|
            0 <= i < s.len() ==> scalars_bytes(s).subrange(32 * i, 32 * i + 32) == (#[trigger] s[i]).bytes@,
    decreases s.len(),
{
    if s.len() > 0 {
        let init = s.drop_last();
        lemma_scalars_bytes_chunks(init);
        assert forall|i: int| 0 <= i < s.len() implies scalars_bytes(s).subrange(32 * i, 32 * i + 32)
            == (#[trigger] s[i]).bytes@ by {
            if i < init.len() {
                assert(init[i] == s[i]);
                assert(scalars_bytes(s).subrange(32 * i, 32 * i + 32) =~= scalars_bytes(init).subrange(32 * i, 32 * i + 32));
            } else {
                assert(scalars_bytes(s).subrange(32 * i, 32 * i + 32) =~= s.last().bytes@);
            }
        }
    }
}

fn push_flag(v: &mut Vec<u8>, b: bool)
    ensures
        final(v)@ == old(v)@ + flag_byte(b),
{
    if b {
        v.push(1u8);
    } else {
        v.push(0u8);
    }
}

pub(crate) fn push_bytes(v: &mut Vec<u8>, b: &[u8; 32])
    ensures
        final(v)@ == old(v)@ + b@,
{
    let mut i: usize = 0;
    while i < 32
        invariant
            0 <= i <= 32,
            v@ == old(v)@ + b@.subrange(0, i as int),
        decreases 32 - i,
    {
        v.push(b[i]);
        i = i + 1;
        assert(b@.subrange(0, i as int) =~= b@.subrange(0, i - 1) + seq![b@[i - 1]]);
    }
    assert(b@.subrange(0, 32) =~= b@);
}

fn read32(b: &Vec<u8>, start: usize) -> (r: [u8; 32])
    requires
        start + 32 <= b@.len(),
    ensures
        r@ == b@.subrange(start as int, start + 32),
{
    let n = b.len();
    let mut a = [0u8; 32];
    let mut i: usize = 0;
    while i < 32
        invariant
            0 <= i <= 32,
            start + 32 <= b@.len(),
            n == b@.len(),
            forall|j: int| 0 <= j < i ==> a@[j] == b@[start + j],
        decreases 32 - i,
    {
        a[i] = b[start + i];
        i = i + 1;
    }
    assert(a@ =~= b@.subrange(start as int, start + 32));
    a
}

fn is_all_zero(b: &Vec<u8>) -> (r: bool)
    ensures
        r == all_zero(b@),
{
    let mut i: usize = 0;
    while i < b.len()
        invariant
            0 <= i <= b@.len(),
            forall|j: int| 0 <= j < i ==> b@[j] == 0,
        decreases b@.len() - i,
    {
        if b[i] != 0 {
            return false;
        }
        i = i + 1;
    }
    true
}

fn read_flag(b: u8) -> (r: Result<bool, ThemisError>)
    ensures
        r is Ok <==> (b == 0 || b == 1),
        r is Ok ==> flag_byte(r.unwrap()) == seq![b],
        r is Err ==> r == Err::<bool, ThemisError>(ThemisError::DecodeError),
{
    if b == 0 {
        Ok(false)
    } else if b == 1 {
        Ok(true)
    } else {
        Err(ThemisError::DecodeError)
    }
}

fn read_point(b: &Vec<u8>, start: usize) -> (r: Result<GroupElement, ThemisError>)
    requires
        start + 32 <= b@.len(),
    ensures
        r is Ok <==> crate::group::is_point_encoding(b@.subrange(start as int, start + 32)),
        r is Ok ==> r.unwrap().wf() && r.unwrap().bytes@ == b@.subrange(start as int, start + 32),
        r is Err ==> r == Err::<GroupElement, ThemisError>(ThemisError::DecodeError),
{
    match GroupElement::from_bytes(read32(b, start)) {
        Some(p) => Ok(p),
        None => Err(ThemisError::DecodeError),
    }
}

fn push_optional_point(v: &mut Vec<u8>, o: &Option<GroupElement>)
    ensures
        final(v)@ == old(v)@ + optional_point_bytes(*o),
{
    push_flag(v, o.is_some());
    match o {
        Some(p) => push_bytes(v, &p.bytes),
        None => {
            let z = [0u8; 32];
            proof {
                assert(z@ =~= zeros(32));
            }
            push_bytes(v, &z);
        },
    }
    proof {
        assert(final(v)@ =~= old(v)@ + optional_point_bytes(*o));
    }
}

proof fn lemma_optional_point_layout(o: Option<GroupElement>)
    ensures
        optional_point_bytes(o).len() == 33,
        optional_point_bytes(o).subrange(0, 1) == flag_byte(o.is_some()),
        optional_point_bytes(o)[0] == (if o.is_some() { 1u8 } else { 0u8 }),
        optional_point_bytes(o).subrange(1, 33) == match o {
            Some(p) => p.bytes@,
            None => zeros(32),
        },
{
    let t = optional_point_bytes(o);
    assert(t.subrange(0, 1) =~= flag_byte(o.is_some()));
    assert(t[0] == t.subrange(0, 1)[0]);
    match o {
        Some(p) => {
            assert(t.subrange(1, 33) =~= p.bytes@);
        },
        None => {
            assert(t.subrange(1, 33) =~= zeros(32));
        },
    }
}

proof fn lemma_optional_point_injective(o1: Option<GroupElement>, o2: Option<GroupElement>)
    requires
        optional_point_bytes(o1) == optional_point_bytes(o2),
    ensures
        o1 == o2,
{
    lemma_optional_point_layout(o1);
    lemma_optional_point_layout(o2);
    if o1.is_some() != o2.is_some() {
        assert(optional_point_bytes(o1)[0] != optional_point_bytes(o2)[0]);
    }
    if o1.is_some() && o2.is_some() {
        assert(o1.unwrap().bytes =~= o2.unwrap().bytes);
    }
}

fn read_optional_point(b: &Vec<u8>, start: usize) -> (r: Result<Option<GroupElement>, ThemisError>)
    requires
        start + 33 <= b@.len(),
    ensures
        r is Ok ==> optional_point_bytes(r.unwrap()) == b@.subrange(start as int, start + 33)
            && (r.unwrap().is_some() ==> r.unwrap().unwrap().wf()),
        r is Err ==> r == Err::<Option<GroupElement>, ThemisError>(ThemisError::DecodeError)
            && forall|o: Option<GroupElement>|
            (o.is_some() ==> o.unwrap().wf()) ==> optional_point_bytes(o) != b@.subrange(
                start as int,
                start + 33,
            ),
{
    let len = b.len();
    let ghost s = b@.subrange(start as int, start + 33);
    proof {
        assert(s[0] == b@[start as int]);
        assert(s.subrange(1, 33) =~= b@.subrange(start + 1, start + 33));
    }
    let present = match read_flag(b[start]) {
        Ok(f) => f,
        Err(e) => {
            proof {
                assert forall|o: Option<GroupElement>| optional_point_bytes(o) != s by {
                    lemma_optional_point_layout(o);
                }
            }
            return Err(e);
        },
    };
    proof {
        assert(flag_byte(present)[0] == b@[start as int]);
    }
    let at: usize = start + 1;
    let r = if present {
        match read_point(b, at) {
            Ok(p) => Some(p),
            Err(e) => {
                proof {
                    assert forall|o: Option<GroupElement>|
                        (o.is_some() ==> o.unwrap().wf()) implies optional_point_bytes(o) != s by {
                        lemma_optional_point_layout(o);
                    }
                }
                return Err(e);
            },
        }
    } else {
        let raw = read32(b, at);
        let z = [0u8; 32];
        proof {
            assert(z@ =~= zeros(32));
        }
        if !crate::group::bytes_equal(&raw, &z) {
            proof {
                assert forall|o: Option<GroupElement>| optional_point_bytes(o) != s by {
                    lemma_optional_point_layout(o);
                }
            }
            return Err(ThemisError::DecodeError);
        }
        None
    };
    proof {
        assert(optional_point_bytes(r) =~= s);
    }
    Ok(r)
}

proof fn lemma_user_layout(u: User)
    ensures
        user_bytes(u).len() == USER_LEN,
        user_bytes(u).subrange(0, 1) == flag_byte(u.is_initialized),
        user_bytes(u)[0] == (if u.is_initialized { 1u8 } else { 0u8 }),
        user_bytes(u)[98] == (if u.proof_verified { 1u8 } else { 0u8 }),
        user_bytes(u)[99] == (if u.payment_requested { 1u8 } else { 0u8 }),
        user_bytes(u).subrange(1, 33) == u.encrypted_aggregate.c1.bytes@,
        user_bytes(u).subrange(33, 65) == u.encrypted_aggregate.c2.bytes@,
        user_bytes(u).subrange(65, 98) == optional_point_bytes(u.decrypted_aggregate),
        user_bytes(u).subrange(98, 99) == flag_byte(u.proof_verified),
        user_bytes(u).subrange(99, 100) == flag_byte(u.payment_requested),
        user_bytes(u).subrange(100, 133) == optional_point_bytes(u.public_key),
{
    lemma_optional_point_layout(u.decrypted_aggregate);
    lemma_optional_point_layout(u.public_key);
    let t = user_bytes(u);
    assert(t.subrange(0, 1) =~= flag_byte(u.is_initialized));
    assert(t.subrange(1, 33) =~= u.encrypted_aggregate.c1.bytes@);
    assert(t.subrange(33, 65) =~= u.encrypted_aggregate.c2.bytes@);
    assert(t.subrange(65, 98) =~= optional_point_bytes(u.decrypted_aggregate));
    assert(t.subrange(98, 99) =~= flag_byte(u.proof_verified));
    assert(t.subrange(99, 100) =~= flag_byte(u.payment_requested));
    assert(t.subrange(100, 133) =~= optional_point_bytes(u.public_key));
    assert(t[0] == t.subrange(0, 1)[0]);
    assert(t[98] == t.subrange(98, 99)[0]);
    assert(t[99] == t.subrange(99, 100)[0]);
}

/// Distinct user accounts have distinct layouts.
proof fn lemma_user_bytes_injective(u1: User, u2: User)
    requires
        user_bytes(u1) == user_bytes(u2),
    ensures
        u1 == u2,
{
    lemma_user_layout(u1);
    lemma_user_layout(u2);
    lemma_optional_point_injective(u1.decrypted_aggregate, u2.decrypted_aggregate);
    lemma_optional_point_injective(u1.public_key, u2.public_key);
    assert(u1.encrypted_aggregate.c1.bytes =~= u2.encrypted_aggregate.c1.bytes);
    assert(u1.encrypted_aggregate.c2.bytes =~= u2.encrypted_aggregate.c2.bytes);
    assert(user_bytes(u1)[0] == user_bytes(u2)[0]);
    assert(user_bytes(u1)[98] == user_bytes(u2)[98]);
    assert(user_bytes(u1)[99] == user_bytes(u2)[99]);
}

/// Writes a user account in its layout.
pub fn encode_user(u: &User) -> (r: Vec<u8>)
    ensures
        r@ == user_bytes(*u),
        r@.len() == USER_LEN,
{
    let mut v: Vec<u8> = Vec::new();
    push_flag(&mut v, u.is_initialized);
    push_bytes(&mut v, &u.encrypted_aggregate.c1.bytes);
    push_bytes(&mut v, &u.encrypted_aggregate.c2.bytes);
    push_optional_point(&mut v, &u.decrypted_aggregate);
    push_flag(&mut v, u.proof_verified);
    push_flag(&mut v, u.payment_requested);
    push_optional_point(&mut v, &u.public_key);
    v
}

/// Reads a user account. An empty or all-zero buffer gives a fresh account.
#[verifier::rlimit(50)]
pub fn decode_user(b: &Vec<u8>) -> (r: Result<User, ThemisError>)
    ensures
        r is Ok ==> user_decodes(b@, r.unwrap()),
        r is Err ==> r == Err::<User, ThemisError>(ThemisError::DecodeError),
        (exists|u: User| user_decodes(b@, u)) ==> r is Ok,
{
    if is_all_zero(b) {
        return Ok(User::new());
    }
    if b.len() != USER_LEN {
        proof {
            assert forall|u: User| u.wf() implies user_bytes(u) != b@ by {
                assert(user_bytes(u).len() == USER_LEN);
            }
        }
        return Err(ThemisError::DecodeError);
    }
    let ghost s = b@;
    proof {
        assert forall|u: User| u.wf() && user_bytes(u) == s implies {
            &&& flag_byte(u.is_initialized) == s.subrange(0, 1)
            &&& u.encrypted_aggregate.c1.bytes@ == s.subrange(1, 33)
            &&& u.encrypted_aggregate.c2.bytes@ == s.subrange(33, 65)
            &&& optional_point_bytes(u.decrypted_aggregate) == s.subrange(65, 98)
            &&& flag_byte(u.proof_verified) == s.subrange(98, 99)
            &&& flag_byte(u.payment_requested) == s.subrange(99, 100)
            &&& optional_point_bytes(u.public_key) == s.subrange(100, 133)
        } by {
            lemma_user_layout(u);
        }
        assert(s.subrange(0, 1) =~= seq![s[0]]);
        assert(s.subrange(98, 99) =~= seq![s[98]]);
        assert(s.subrange(99, 100) =~= seq![s[99]]);
    }
    let is_initialized = read_flag(b[0]);
    let proof_verified = read_flag(b[98]);
    let payment_requested = read_flag(b[99]);
    let c1 = read_point(b, 1);
    let c2 = read_point(b, 33);
    let decrypted_aggregate = read_optional_point(b, 65);
    let public_key = read_optional_point(b, 100);
    let (is_initialized, proof_verified, payment_requested) = match (
        is_initialized,
        proof_verified,
        payment_requested,
    ) {
        (Ok(a), Ok(v), Ok(p)) => (a, v, p),
        _ => {
            return Err(ThemisError::DecodeError);
        },
    };
    let (c1, c2, decrypted_aggregate, public_key) = match (
        c1,
        c2,
        decrypted_aggregate,
        public_key,
    ) {
        (Ok(c1), Ok(c2), Ok(d), Ok(k)) => (c1, c2, d, k),
        _ => {
            return Err(ThemisError::DecodeError);
        },
    };
    let encrypted_aggregate = Ciphertext { c1, c2 };
    let u = User {
        is_initialized,
        encrypted_aggregate,
        decrypted_aggregate,
        proof_verified,
        payment_requested,
        public_key,
    };
    proof {
        assert(user_bytes(u) =~= s);
        assert forall|v: User| v.wf() && user_bytes(v) == s implies v == u by {
            lemma_user_bytes_injective(v, u);
        }
    }
    let consistent = decrypted_aggregate.is_some() == proof_verified && !(payment_requested
        && !proof_verified) && !(proof_verified && !is_initialized) && !(public_key.is_some()
        && !is_initialized) && (public_key.is_some() || encrypted_aggregate.equals(
        &identity_ciphertext(),
    ));
    if !consistent {
        return Err(ThemisError::DecodeError);
    }
    Ok(u)
}

proof fn lemma_policies_layout(b: Seq<u8>, p: Policies)
    requires
        !all_zero(b),
        policies_decodes(b, p),
    ensures
        b.len() == 3 + 32 * p.scalars@.len(),
        flag_byte(p.is_initialized) == b.subrange(0, 1),
        b[1] as int + 256 * b[2] as int == p.scalars@.len(),
        forall|i: int|
            0 <= i < p.scalars@.len() ==> b.subrange(3 + 32 * i, 3 + 32 * i + 32)
                == (#[trigger] p.scalars@[i]).bytes@,
{
    let n = p.scalars@.len();
    lemma_scalars_bytes_chunks(p.scalars@);
    assert(b.subrange(0, 1) =~= flag_byte(p.is_initialized));
    assert(b[1] == (n % 256) as u8);
    assert(b[2] == (n / 256) as u8);
    assert forall|i: int| 0 <= i < n implies b.subrange(3 + 32 * i, 3 + 32 * i + 32)
        == (#[trigger] p.scalars@[i]).bytes@ by {
        assert(b.subrange(3 + 32 * i, 3 + 32 * i + 32) =~= scalars_bytes(p.scalars@).subrange(
            32 * i,
            32 * i + 32,
        ));
    }
}

/// Writes a policies account in its layout.
pub fn encode_policies(p: &Policies) -> (r: Vec<u8>)
    requires
        p.scalars@.len() < 65536,
    ensures
        r@ == policies_bytes(*p),
{
    let mut v: Vec<u8> = Vec::new();
    push_flag(&mut v, p.is_initialized);
    let n = p.scalars.len();
    v.push((n % 256) as u8);
    v.push((n / 256) as u8);
    let mut i: usize = 0;
    while i < n
        invariant
            0 <= i <= n,
            n == p.scalars@.len(),
            n < 65536,
            v@ == flag_byte(p.is_initialized) + seq![(n % 256) as u8, (n / 256) as u8]
                + scalars_bytes(p.scalars@.subrange(0, i as int)),
        decreases n - i,
    {
        push_bytes(&mut v, &p.scalars[i].bytes);
        proof {
            let t = p.scalars@.subrange(0, i + 1);
            assert(t.drop_last() =~= p.scalars@.subrange(0, i as int));
        }
        i = i + 1;
    }
    proof {
        assert(p.scalars@.subrange(0, n as int) =~= p.scalars@);
    }
    v
}

/// Reads a policies account. An empty or all-zero buffer gives a fresh
/// account.
pub fn decode_policies(b: &Vec<u8>) -> (r: Result<Policies, ThemisError>)
    ensures
        r is Ok ==> policies_decodes(b@, r.unwrap()),
        r is Err ==> r == Err::<Policies, ThemisError>(ThemisError::DecodeError),
        (exists|p: Policies| policies_decodes(b@, p)) ==> r is Ok,
{
    if is_all_zero(b) {
        return Ok(Policies::new());
    }
    proof {
        assert forall|p: Policies| policies_decodes(b@, p) implies b@.len() == 3 + 32
            * p.scalars@.len() && flag_byte(p.is_initialized) == b@.subrange(0, 1) && b@[1] as int
            + 256 * b@[2] as int == p.scalars@.len() by {
            lemma_policies_layout(b@, p);
        }
    }
    let len = b.len();
    if len < 3 {
        return Err(ThemisError::DecodeError);
    }
    proof {
        assert(b@.subrange(0, 1) =~= seq![b@[0]]);
    }
    let is_initialized = match read_flag(b[0]) {
        Ok(f) => f,
        Err(e) => {
            return Err(e);
        },
    };
    let n: usize = b[1] as usize + 256 * (b[2] as usize);
    if len - 3 != 32 * n {
        return Err(ThemisError::DecodeError);
    }
    let mut scalars: Vec<Scalar> = Vec::new();
    let mut i: usize = 0;
    while i < n
        invariant
            0 <= i <= n,
            len == b@.len(),
            !all_zero(b@),
            len - 3 == 32 * n,
            scalars@.len() == i,
            scalars_wf(scalars@),
            scalars_bytes(scalars@) == b@.subrange(3, 3 + 32 * i),
        decreases n - i,
    {
        let raw = read32(b, 3 + 32 * i);
        let w = match Scalar::from_canonical_bytes(raw) {
            Some(w) => w,
            None => {
                proof {
                    assert forall|p: Policies| !policies_decodes(b@, p) by {
                        if policies_decodes(b@, p) {
                            lemma_policies_layout(b@, p);
                            assert(p.scalars@[i as int].wf());
                        }
                    }
                }
                return Err(ThemisError::DecodeError);
            },
        };
        let ghost before = scalars@;
        scalars.push(w);
        proof {
            assert(scalars@.drop_last() =~= before);
            assert(b@.subrange(3, 3 + 32 * (i + 1)) =~= b@.subrange(3, 3 + 32 * i) + b@.subrange(
                3 + 32 * i,
                3 + 32 * i + 32,
            ));
        }
        i = i + 1;
    }
    let p = Policies { is_initialized, scalars };
    proof {
        assert(b@.subrange(0, 1) =~= seq![b@[0]]);
        assert((n % 256) as u8 == b@[1]);
        assert((n / 256) as u8 == b@[2]);
        assert(b@ =~= b@.subrange(0, 1) + seq![b@[1], b@[2]] + b@.subrange(3, 3 + 32 * n));
    }
    Ok(p)
}

} // verus!
