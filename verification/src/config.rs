//! The patch configuration: which file to edit, which image entry to patch,
//! and the values to write, together with the credentials the surrounding
//! workflow needs.

use vstd::prelude::*;
use vstd::string::StrSliceExecFns;
use vstd::string::StringExecFns;
use vstd::utf8::encode_utf8;

verus! {

/// The whole run's configuration, as the launcher reads it from the
/// environment.
#[derive(Debug, Clone)]
pub struct Config {
    pub installation_id: u64,
    pub app_id: u64,
    pub private_key_pem: String,
    pub repo_owner: String,
    pub repo_name: String,
    pub file_to_edit: String,
    pub image_name: String,
    pub new_name: Option<String>,
    pub new_tag: Option<String>,
}

/// One failure of decoding the configured private key.
#[derive(Debug, PartialEq, Eq)]
pub enum KeyError {
    InvalidPem,
}

/// What PEM decoding yields for given bytes: the DER contents of the first
/// PEM block, when the bytes hold a well-formed one; nothing otherwise.
pub uninterp spec fn pem_contents(data: Seq<u8>) -> Option<Seq<u8>>;

/// The configured key text's bytes, with every caret turned back into a
/// newline (the key is carried with carets in place of line breaks).
pub open spec fn uncaret_bytes(s: Seq<u8>) -> Seq<u8> {
    s.map_values(|b: u8| if b == 94 { 10u8 } else { b })
}

/// The byte form of the private key as handed to the PEM decoder.
pub open spec fn key_pem_bytes(c: Config) -> Seq<u8> {
    uncaret_bytes(encode_utf8(c.private_key_pem@))
}

/// Relies on x509_parser::pem::parse_x509_pem: the decoded block is a
/// function of the input bytes alone; its contents are the DER bytes.
#[verifier::external_body]
fn parse_pem(data: &[u8]) -> (r: Result<Vec<u8>, x509_parser::error::PEMError>)
    ensures
        r matches Ok(der) ==> pem_contents(data@) == Some(der@),
        r is Err <==> pem_contents(data@) is None,
{
    x509_parser::nom::Finish::finish(x509_parser::pem::parse_x509_pem(data))
        .map(|(_, pem)| pem.contents)
}

#[verifier::external_type_specification]
#[verifier::external_body]
pub struct ExPemError(x509_parser::error::PEMError);

/// Every caret byte replaced by a newline byte.
fn replace_carets(bytes: &Vec<u8>) -> (r: Vec<u8>)
    ensures
        r@ == uncaret_bytes(bytes@),
{
    let mut out: Vec<u8> = Vec::new();
    let mut i: usize = 0;
    while i < bytes.len()
        invariant
            i <= bytes@.len(),
            out@ == uncaret_bytes(bytes@).take(i as int),
        decreases bytes@.len() - i,
    {
        let b = bytes[i];
        if b == 94 {
            out.push(10);
        } else {
            out.push(b);
        }
        proof {
            assert(uncaret_bytes(bytes@).take(i as int + 1)
                =~= uncaret_bytes(bytes@).take(i as int).push(uncaret_bytes(bytes@)[i as int]));
        }
        i = i + 1;
    }
    proof {
        assert(uncaret_bytes(bytes@).take(bytes@.len() as int) =~= uncaret_bytes(bytes@));
    }
    out
}

impl Config {
    /// Decode the configured private key: carets stand for newlines in the
    /// carried PEM text, and the key is the DER contents of its first block.
    pub fn private_key_der(&self) -> (r: Result<Vec<u8>, KeyError>)
        ensures
            r matches Ok(der) ==> pem_contents(key_pem_bytes(*self)) == Some(der@),
            r is Err <==> pem_contents(key_pem_bytes(*self)) is None,
    {
        let bytes = self.private_key_pem.as_str().as_bytes_vec();
        let processed = replace_carets(&bytes);
        match parse_pem(processed.as_slice()) {
            Ok(der) => Ok(der),
            Err(_) => Err(KeyError::InvalidPem),
        }
    }
}

/// The commit message for a patch: names the new tag when one is given.
pub fn commit_message(config: &Config) -> (r: String)
    ensures
        match config.new_tag {
            Some(tag) => r@ == "Setting SHA to "@ + tag@,
            None => r@ == "Automated update"@,
        },
{
    match &config.new_tag {
        Some(tag) => {
            let mut message = "Setting SHA to ".to_owned();
            message.append(tag.as_str());
            message
        }
        None => "Automated update".to_owned(),
    }
}

} // verus!
