//! The Fiat-Shamir transcript protocol, over merlin's `Transcript`.
use vstd::prelude::*;
use vstd::string::StringSliceAdditionalSpecFns;
use crate::point::CompressedPoint;
use crate::scalar::Scalar;
use merlin::Transcript;

verus! {

/// merlin's `Transcript`, the Fiat-Shamir state carried opaquely.
#[verifier::external_type_specification]
#[verifier::external_body]
pub struct ExTranscript(Transcript);

/// Relies on merlin's `Transcript::append_message`: absorbs a labelled message.
#[verifier::external_body]
pub(crate) fn append_message(t: &mut Transcript, label: &'static str, message: &[u8])
    requires
        message@.len() <= u32::MAX,
{
    t.append_message(label.as_bytes(), message)
}

/// Relies on merlin's `Transcript::append_u64`: absorbs a labelled integer.
#[verifier::external_body]
pub(crate) fn append_u64(t: &mut Transcript, label: &'static str, x: u64)
{
    t.append_u64(label.as_bytes(), x)
}

/// Relies on merlin's `Transcript::challenge_bytes`: fills `dest` with challenge bytes.
#[verifier::external_body]
pub(crate) fn challenge_bytes(t: &mut Transcript, label: &'static str, dest: &mut [u8; 64])
{
    t.challenge_bytes(label.as_bytes(), dest)
}

/// Absorbs the encoding of a group element.
pub fn commit_point(t: &mut Transcript, label: &'static str, p: &CompressedPoint)
{
    append_message(t, label, p.bytes.as_slice());
}

/// Absorbs the encoding of a scalar.
pub fn commit_scalar(t: &mut Transcript, label: &'static str, s: &Scalar)
{
    append_message(t, label, s.bytes.as_slice());
}

/// Absorbs an integer.
pub fn commit_u64(t: &mut Transcript, label: &'static str, x: u64)
{
    append_u64(t, label, x);
}

/// Derives a challenge scalar: 64 challenge bytes reduced modulo the group order.
pub fn challenge_scalar(t: &mut Transcript, label: &'static str) -> (r: Scalar)
    ensures
        r.wf(),
{
    let mut buf = [0u8; 64];
    challenge_bytes(t, label, &mut buf);
    Scalar::from_bytes_mod_order_wide(&buf)
}

/// Domain separator of the constraint-system protocol.
pub fn r1cs_domain_sep(t: &mut Transcript)
{
    proof {
        reveal_strlit("r1cs v1");
        vstd::string::is_ascii_spec_bytes("r1cs v1");
    }
    append_message(t, "dom-sep", "r1cs v1".as_bytes());
}


/// Domain separator of the binary inner-product argument, bound to the length `n`.
pub fn innerproduct_domain_sep(t: &mut Transcript, n: u64)
{
    proof {
        reveal_strlit("ipp v1");
        vstd::string::is_ascii_spec_bytes("ipp v1");
    }
    append_message(t, "dom-sep", "ipp v1".as_bytes());
    append_u64(t, "n", n);
}

} // verus!

