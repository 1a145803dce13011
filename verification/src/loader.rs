use vstd::prelude::*;

verus! {

/// Where a candidate's bytes come from: a filesystem path to be read, or an
/// in-memory buffer embedded in the candidate.
pub enum ByteSource {
    Path(String),
    Bytes(Vec<u8>),
}

/// A resolver-proposed font asset, not yet loaded: its stable key, its
/// human-readable family name, and where its bytes come from.
pub struct FoundFont {
    pub key: String,
    pub family: String,
    pub source: ByteSource,
}

/// A candidate paired with the outcome of loading its bytes: `None` when the
/// byte fetch failed, in which case the candidate is silently skipped.
pub struct Candidate {
    pub key: String,
    pub family: String,
    pub bytes: Option<Vec<u8>>,
}

/// Mathematical content of a `Candidate`.
#[verifier::ext_equal]
pub ghost struct CandModel {
    pub key: Seq<char>,
    pub family: Seq<char>,
    pub bytes: Option<Seq<u8>>,
}

impl View for Candidate {
    type V = CandModel;

    open spec fn view(&self) -> CandModel {
        CandModel {
            key: self.key@,
            family: self.family@,
            bytes: match self.bytes {
                Option::Some(b) => Option::Some(b@),
                Option::None => Option::None,
            },
        }
    }
}

/// The models of a sequence of candidates.
pub open spec fn cand_models(s: Seq<Candidate>) -> Seq<CandModel> {
    s.map_values(|c: Candidate| c@)
}

/// What loading yields: an embedded buffer always loads; a path yields
/// whatever reading the file yielded (`None` on any I/O error, a soft
/// per-candidate skip that never aborts the batch).
pub open spec fn load_model(source: ByteSource, file_read: Option<Vec<u8>>) -> Option<Vec<u8>> {
    match source {
        ByteSource::Bytes(b) => Option::Some(b),
        ByteSource::Path(_) => file_read,
    }
}

/// The loader's choice between the two byte sources. The filesystem half
/// lives with the caller: for a `Path` source the caller passes the outcome
/// of reading that file; for a `Bytes` source the argument is ignored.
pub fn load(source: ByteSource, file_read: Option<Vec<u8>>) -> (r: Option<Vec<u8>>)
    ensures
        r == load_model(source, file_read),
{
    match source {
        ByteSource::Bytes(b) => Option::Some(b),
        ByteSource::Path(_p) => file_read,
    }
}

impl Candidate {
    /// Pairs a resolver candidate with the outcome of fetching its bytes.
    pub fn from_font(font: FoundFont, file_read: Option<Vec<u8>>) -> (c: Candidate)
        ensures
            c.key == font.key,
            c.family == font.family,
            c.bytes == load_model(font.source, file_read),
    {
        Candidate { key: font.key, family: font.family, bytes: load(font.source, file_read) }
    }
}

} // verus!
