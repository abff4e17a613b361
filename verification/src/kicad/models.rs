//! 3D models embedded in parts as base64 data, and the model files written
//! into a KiCad project's `models/` directory: the embedded data, decoded,
//! under the file name of the component's model path.

use vstd::prelude::*;

use base64::Engine as _;

use crate::kicad::board::CompiledComponent;
use crate::text::{last_part, push_str, slash_path};

verus! {

broadcast use vstd::string::group_string_axioms;

/// The bytes that base64's standard engine (standard alphabet, padding
/// required) decodes `data` to, or `None` where it reports an error.
pub uninterp spec fn base64_decoded(data: Seq<char>) -> Option<Seq<u8>>;

/// Calls `base64::engine::general_purpose::STANDARD.decode` on `data`. The
/// contract claims that the outcome depends on `data` alone (named
/// [`base64_decoded`]); the text of the error is not stated.
#[verifier::external_body]
fn decode_base64(data: &str) -> (r: Result<Vec<u8>, String>)
    ensures
        match base64_decoded(data@) {
            Some(b) => r matches Ok(v) && v@ == b,
            None => r is Err,
        },
{
    base64::engine::general_purpose::STANDARD.decode(data).map_err(|e| e.to_string())
}

/// Calls `std::path::Path::file_name` on `path` and converts the result to
/// a string. The contract states what its documentation gives on every
/// platform: a path whose final component is its part after the last `/`
/// (see [`slash_path`]) has that part as its file name. Which file name, if
/// any, it gives for another path depends on the platform's path syntax and
/// is not stated.
#[verifier::external_body]
fn path_file_name(path: &str) -> (r: Option<String>)
    ensures
        slash_path(path@) ==> match r {
            Some(n) => n@ == last_part(path@),
            None => false,
        },
{
    std::path::Path::new(path).file_name().and_then(|s| s.to_str()).map(|s| s.to_string())
}

/// A model file to write: its name within `models/` and its contents.
#[derive(Debug)]
pub struct ModelFile {
    pub file_name: String,
    pub bytes: Vec<u8>,
}

/// Whether `prefix` begins `s`.
pub open spec fn begins_with(s: Seq<char>, prefix: Seq<char>) -> bool {
    prefix.len() <= s.len() && s.take(prefix.len() as int) == prefix
}

/// The model file of a component with reference `refdes`, embedded data
/// `data` and model file name `name` (the file name of its model path):
/// nothing without data; the decoded bytes under `name`, or under
/// `<refdes>.step` without one; a `base64 decode: …` message when the data
/// does not decode.
pub fn model_file_from(refdes: &str, data: Option<&str>, name: Option<&str>) -> (r: Option<Result<ModelFile, String>>)
    ensures
        match data {
            None => r is None,
            Some(d) => match base64_decoded(d@) {
                None => r matches Some(Err(m)) && begins_with(m@, "base64 decode: "@),
                Some(b) => r matches Some(Ok(f)) && f.bytes@ == b && f.file_name@ == match name {
                    Some(n) => n@,
                    None => refdes@ + ".step"@,
                },
            },
        },
{
    let d = match data {
        Some(d) => d,
        None => {
            return None;
        },
    };
    match decode_base64(d) {
        Err(e) => {
            let mut m = "base64 decode: ".to_string();
            let ghost head = m@;
            push_str(&mut m, e.as_str());
            proof {
                reveal_strlit("base64 decode: ");
                assert(m@.take(head.len() as int) =~= head);
            }
            Some(Err(m))
        },
        Ok(bytes) => {
            let file_name = match name {
                Some(n) => n.to_string(),
                None => {
                    let mut f = refdes.to_string();
                    push_str(&mut f, ".step");
                    f
                },
            };
            Some(Ok(ModelFile { file_name, bytes }))
        },
    }
}

/// The model file of `comp` (see [`model_file_from`]), named after the
/// file name of its model path when it has one, else `<refdes>.step`.
pub fn model_file(comp: &CompiledComponent) -> (r: Option<Result<ModelFile, String>>)
    ensures
        match comp.meta.model_3d_data {
            None => r is None,
            Some(d) => match base64_decoded(d@) {
                None => r matches Some(Err(m)) && begins_with(m@, "base64 decode: "@),
                Some(b) => r matches Some(Ok(f)) && f.bytes@ == b,
            },
        },
        comp.meta.model_3d is None ==> (r matches Some(Ok(f)) ==> f.file_name@ == comp.refdes@
            + ".step"@),
        match comp.meta.model_3d {
            Some(p) => slash_path(p@) ==> (r matches Some(Ok(f)) ==> f.file_name@ == last_part(p@)),
            None => true,
        },
{
    let name = match &comp.meta.model_3d {
        Some(p) => path_file_name(p.as_str()),
        None => None,
    };
    let data = match &comp.meta.model_3d_data {
        Some(d) => Some(d.as_str()),
        None => None,
    };
    match &name {
        Some(n) => model_file_from(comp.refdes.as_str(), data, Some(n.as_str())),
        None => model_file_from(comp.refdes.as_str(), data, None),
    }
}

/// The text base64's standard engine (standard alphabet, with padding)
/// encodes `bytes` to.
pub uninterp spec fn base64_encoded(bytes: Seq<u8>) -> Seq<char>;

/// Calls `base64::engine::general_purpose::STANDARD.encode` on `bytes`.
/// The contract claims that the text depends on `bytes` alone (named
/// [`base64_encoded`]) and that the same engine decodes it back to `bytes`,
/// which the crate's documentation and round-trip tests show.
#[verifier::external_body]
fn encode_base64(bytes: &[u8]) -> (r: String)
    ensures
        r@ == base64_encoded(bytes@),
        base64_decoded(r@) == Some(bytes@),
{
    base64::engine::general_purpose::STANDARD.encode(bytes)
}

/// The model file to read and embed into a part: its model path, when it
/// has one and no model data is embedded yet.
pub fn model_to_embed(model_3d: Option<&str>, model_3d_data: Option<&str>) -> (r: Option<String>)
    ensures
        match (model_3d, model_3d_data) {
            (Some(p), None) => r matches Some(s) && s@ == p@,
            _ => r is None,
        },
{
    match (model_3d, model_3d_data) {
        (Some(p), None) => Some(p.to_string()),
        _ => None,
    }
}

/// The embedded form of a model file's contents: its base64 text, which
/// [`model_file_from`] decodes back to the same bytes.
pub fn encode_model_data(bytes: &[u8]) -> (r: String)
    ensures
        r@ == base64_encoded(bytes@),
        base64_decoded(r@) == Some(bytes@),
{
    encode_base64(bytes)
}

} // verus!
