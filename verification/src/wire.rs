//! Wire schema: the three payload shapes exchanged with the remote signing
//! service, and the serializer for the outbound sign request body
//! `{"pubkey":"<base64>","data":"<base64>","flags":<uint32>}`.
//! Byte fields cross the wire as standard base64 text with padding; `flags`
//! crosses as a plain decimal integer.

use crate::codec;
use vstd::prelude::*;

verus! {

/// Identity names decoded from a list-identities response body.
/// The order of the wire array is preserved.
#[derive(Debug)]
pub struct ListIdentities {
    pub identities: Vec<String>,
}

/// The character sequences of a sequence of strings.
pub open spec fn strs_of(v: Seq<String>) -> Seq<Seq<char>> {
    Seq::new(v.len(), |k: int| v[k]@)
}

impl View for ListIdentities {
    type V = Seq<Seq<char>>;

    open spec fn view(&self) -> Seq<Seq<char>> {
        strs_of(self.identities@)
    }
}

/// A sign request as the agent-protocol side of the system hands it over:
/// the public key blob naming the key, the bytes to sign, and the protocol
/// flags.
#[derive(Debug)]
pub struct DomainSignRequest {
    pub pubkey_blob: Vec<u8>,
    pub data: Vec<u8>,
    pub flags: u32,
}

/// A sign request in its wire shape, ready to be serialized as the HTTP
/// request body.  Constructed by moving the byte buffers out of a
/// `DomainSignRequest`; no validation happens in that conversion.
#[derive(Debug)]
pub struct SignRequest {
    pub pubkey: Vec<u8>,
    pub data: Vec<u8>,
    pub flags: u32,
}

impl From<DomainSignRequest> for SignRequest {
    fn from(req: DomainSignRequest) -> SignRequest {
        SignRequest { pubkey: req.pubkey_blob, data: req.data, flags: req.flags }
    }
}

impl vstd::std_specs::convert::FromSpecImpl<DomainSignRequest> for SignRequest {
    open spec fn obeys_from_spec() -> bool {
        true
    }

    open spec fn from_spec(req: DomainSignRequest) -> SignRequest {
        SignRequest { pubkey: req.pubkey_blob, data: req.data, flags: req.flags }
    }
}

/// A signature decoded from a sign response body.
#[derive(Debug)]
pub struct Signature {
    pub sig: Vec<u8>,
}

impl Signature {
    /// Moves the signature bytes out, the shape the agent protocol carries.
    pub fn into_blob(self) -> (r: Vec<u8>)
        ensures
            r@ == self.sig@,
    {
        self.sig
    }
}

/// Decimal digits of a number, most significant first.
pub open spec fn dec_digits(n: nat) -> Seq<u8>
    decreases n,
{
    if n < 10 {
        seq![(48 + n) as u8]
    } else {
        dec_digits(n / 10) + seq![(48 + n % 10) as u8]
    }
}

/// The bytes `{"pubkey":"`.
pub open spec fn lit_obj_pubkey() -> Seq<u8> {
    seq![123, 34, 112, 117, 98, 107, 101, 121, 34, 58, 34]
}

/// The bytes `","data":"`.
pub open spec fn lit_data() -> Seq<u8> {
    seq![34, 44, 34, 100, 97, 116, 97, 34, 58, 34]
}

/// The bytes `","flags":`.
pub open spec fn lit_flags() -> Seq<u8> {
    seq![34, 44, 34, 102, 108, 97, 103, 115, 34, 58]
}

/// The wire body of a sign request: the object with the `pubkey`, `data`
/// and `flags` fields in that order, byte fields as padded base64 text,
/// flags as a plain decimal integer, and no added whitespace.
pub open spec fn sign_request_body(pubkey: Seq<u8>, data: Seq<u8>, flags: u32) -> Seq<u8> {
    lit_obj_pubkey() + codec::encode_b64(pubkey) + lit_data() + codec::encode_b64(data)
        + lit_flags() + dec_digits(flags as nat) + seq![125]
}

fn push_lit_obj_pubkey(out: &mut Vec<u8>)
    ensures
        final(out)@ == old(out)@ + lit_obj_pubkey(),
{
    out.push(123);
    out.push(34);
    out.push(112);
    out.push(117);
    out.push(98);
    out.push(107);
    out.push(101);
    out.push(121);
    out.push(34);
    out.push(58);
    out.push(34);
    assert(out@ =~= old(out)@ + lit_obj_pubkey());
}

fn push_lit_data(out: &mut Vec<u8>)
    ensures
        final(out)@ == old(out)@ + lit_data(),
{
    out.push(34);
    out.push(44);
    out.push(34);
    out.push(100);
    out.push(97);
    out.push(116);
    out.push(97);
    out.push(34);
    out.push(58);
    out.push(34);
    assert(out@ =~= old(out)@ + lit_data());
}

fn push_lit_flags(out: &mut Vec<u8>)
    ensures
        final(out)@ == old(out)@ + lit_flags(),
{
    out.push(34);
    out.push(44);
    out.push(34);
    out.push(102);
    out.push(108);
    out.push(97);
    out.push(103);
    out.push(115);
    out.push(34);
    out.push(58);
    assert(out@ =~= old(out)@ + lit_flags());
}

fn push_dec(n: u32, out: &mut Vec<u8>)
    ensures
        final(out)@ == old(out)@ + dec_digits(n as nat),
    decreases n,
{
    if n < 10 {
        out.push(48 + (n as u8));
        assert(out@ =~= old(out)@ + dec_digits(n as nat));
    } else {
        push_dec(n / 10, out);
        out.push(48 + ((n % 10) as u8));
        assert(out@ =~= old(out)@ + dec_digits(n as nat));
    }
}

/// Serialize a wire sign request as the HTTP request body the remote
/// service expects.  Always succeeds; the result is exactly
/// `sign_request_body` of the request's fields.
pub fn encode_sign_request(req: &SignRequest) -> (r: Vec<u8>)
    ensures
        r@ == sign_request_body(req.pubkey@, req.data@, req.flags),
{
    let mut out: Vec<u8> = Vec::new();
    push_lit_obj_pubkey(&mut out);
    let mut pk = codec::encode(&req.pubkey);
    out.append(&mut pk);
    push_lit_data(&mut out);
    let mut dt = codec::encode(&req.data);
    out.append(&mut dt);
    push_lit_flags(&mut out);
    push_dec(req.flags, &mut out);
    out.push(125);
    assert(out@ =~= sign_request_body(req.pubkey@, req.data@, req.flags));
    out
}

} // verus!
