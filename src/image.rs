use base64::Engine;
use vstd::prelude::*;

verus! {

/// Why an image could not be loaded.
#[derive(Clone, Debug, PartialEq, Eq)]
pub enum ImageError {
    /// The file could not be read; the text says why.
    Read(String),
    /// The content is not a supported image: it holds the type that was
    /// recognised, or nothing where no type was.
    UnsupportedFormat(Option<String>),
}

/// What `infer::get` recognises in some bytes, as a MIME type.
pub uninterp spec fn sniffed_type(b: Seq<u8>) -> Option<Seq<char>>;

/// What the padded standard base64 engine makes of some bytes.
pub uninterp spec fn base64_of(b: Seq<u8>) -> Seq<char>;

/// Relies on infer::get and infer::Type::mime_type: the MIME type that the
/// leading bytes announce, if any.
#[verifier::external_body]
fn sniff_type(bytes: &[u8]) -> (r: Option<String>)
    ensures
        r is Some <==> sniffed_type(bytes@) is Some,
        r is Some ==> r->Some_0@ == sniffed_type(bytes@)->Some_0,
{
    infer::get(bytes).map(|kind| kind.mime_type().to_string())
}

/// Relies on base64's `general_purpose::STANDARD` engine, `Engine::encode`:
/// standard alphabet, padded.
#[verifier::external_body]
fn encode_base64(bytes: &[u8]) -> (r: String)
    ensures
        r@ == base64_of(bytes@),
{
    base64::engine::general_purpose::STANDARD.encode(bytes)
}

/// The image types that load.
pub open spec fn is_supported_type(m: Seq<char>) -> bool {
    m == "image/jpeg"@ || m == "image/png"@ || m == "image/gif"@ || m == "image/webp"@
}

fn same_text(a: &str, b: &str) -> (r: bool)
    ensures
        r == (a@ == b@),
{
    let n = a.unicode_len();
    if n != b.unicode_len() {
        return false;
    }
    let mut i: usize = 0;
    while i < n
        invariant
            n == a@.len(),
            n == b@.len(),
            i <= n,
            forall|k: int| 0 <= k < i ==> a@[k] == b@[k],
        decreases n - i,
    {
        if a.get_char(i) != b.get_char(i) {
            return false;
        }
        i += 1;
    }
    assert(a@ =~= b@);
    true
}

/// Whether a MIME type is one of the image types that load.
pub fn is_supported_mime(m: &str) -> (r: bool)
    ensures
        r == is_supported_type(m@),
{
    same_text(m, "image/jpeg") || same_text(m, "image/png") || same_text(m, "image/gif")
        || same_text(m, "image/webp")
}

/// The text of an optional string.
pub open spec fn text_of(o: Option<String>) -> Option<Seq<char>> {
    match o {
        Some(m) => Some(m@),
        None => None,
    }
}

/// A recognised type that loads.
pub open spec fn loads(found: Option<Seq<char>>) -> bool {
    found is Some && is_supported_type(found->Some_0)
}

/// `r` rejects the content as not a supported image, naming what was found.
pub open spec fn rejects(r: Result<String, ImageError>, found: Option<Seq<char>>) -> bool {
    &&& r is Err
    &&& r->Err_0 is UnsupportedFormat
    &&& text_of(r->Err_0->UnsupportedFormat_0) == found
}

/// Accepts a recognised type that loads, and rejects anything else with an
/// error that names it.
pub fn check_type(sniffed: Option<String>) -> (r: Result<String, ImageError>)
    ensures
        loads(text_of(sniffed)) ==> r is Ok && r->Ok_0@ == text_of(sniffed)->Some_0,
        !loads(text_of(sniffed)) ==> rejects(r, text_of(sniffed)),
{
    match sniffed {
        None => Err(ImageError::UnsupportedFormat(None)),
        Some(m) => {
            if is_supported_mime(m.as_str()) {
                Ok(m)
            } else {
                Err(ImageError::UnsupportedFormat(Some(m)))
            }
        },
    }
}

/// The text of a data URI that embeds base64 data of the given type.
pub open spec fn data_uri_text(mime: Seq<char>, encoded: Seq<char>) -> Seq<char> {
    "data:"@ + mime + ";base64,"@ + encoded
}

/// Builds `data:<mime>;base64,<encoded>`.
pub fn data_uri(mime: &str, encoded: &str) -> (r: String)
    ensures
        r@ == data_uri_text(mime@, encoded@),
{
    let mut s = String::from_str("data:");
    s.append(mime);
    s.append(";base64,");
    s.append(encoded);
    s
}

/// Loads an image from the outcome of reading its file. A read that failed
/// is a `Read` error carrying its text. Otherwise the bytes decide, whatever
/// the file is called: a recognised JPEG, PNG, GIF or WebP becomes a data URI
/// of its type and its base64 text, and anything else is `UnsupportedFormat`.
pub fn get_image_base64(content: Result<Vec<u8>, String>) -> (r: Result<String, ImageError>)
    ensures
        content is Err ==> r == Err::<String, ImageError>(ImageError::Read(content->Err_0)),
        content is Ok ==> {
            let found = sniffed_type(content->Ok_0@);
            &&& loads(found) ==> r is Ok && r->Ok_0@ == data_uri_text(
                found->Some_0,
                base64_of(content->Ok_0@),
            )
            &&& !loads(found) ==> rejects(r, found)
        },
{
    let bytes = match content {
        Err(e) => {
            return Err(ImageError::Read(e));
        },
        Ok(bytes) => bytes,
    };
    let mime = match check_type(sniff_type(bytes.as_slice())) {
        Err(e) => {
            return Err(e);
        },
        Ok(m) => m,
    };
    let encoded = encode_base64(bytes.as_slice());
    Ok(data_uri(mime.as_str(), encoded.as_str()))
}

} // verus!
