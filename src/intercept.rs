use vstd::prelude::*;
use vstd::string::StringSliceAdditionalSpecFns;
use crate::scanner::{find_subsequence, is_first_occurrence};
use crate::index::{AssetEntry, StreamFiles};
use crate::pool::{ListedEntry, candidates_spec, random_media_select};

verus! {

/// Where the hook goes when the signature is not found in the code region.
pub const DEFAULT_LOOKUP_OFFSET: usize = 0x31bf2e0;

/// The instructions that surround the call site of the hashed-asset lookup.
pub open spec fn search_code_spec() -> Seq<u8> {
    seq![
        0x29u8, 0x58u8, 0x40u8, 0xf9u8,
        0x28u8, 0x60u8, 0x40u8, 0xf9u8,
        0x2au8, 0x05u8, 0x40u8, 0xb9u8,
        0x09u8, 0x0du8, 0x0au8, 0x8bu8,
        0xaau8, 0x01u8, 0x00u8, 0x34u8,
        0x5fu8, 0x01u8, 0x00u8, 0xf1u8,
    ]
}

/// The signature searched for in the host's code region:
/// `ldr x9,[x1,#0xb0]; ldr x8,[x1,#0xc0]; ldr w10,[x9,#0x4];
/// add x9,x8,x10,lsl #3; cbz w10,..; cmp x10,#0`.
pub fn search_code() -> (r: Vec<u8>)
    ensures
        r@ == search_code_spec(),
{
    let r = vec![
        0x29u8, 0x58u8, 0x40u8, 0xf9u8,
        0x28u8, 0x60u8, 0x40u8, 0xf9u8,
        0x2au8, 0x05u8, 0x40u8, 0xb9u8,
        0x09u8, 0x0du8, 0x0au8, 0x8bu8,
        0xaau8, 0x01u8, 0x00u8, 0x34u8,
        0x5fu8, 0x01u8, 0x00u8, 0xf1u8,
    ];
    assert(r@ =~= search_code_spec());
    r
}

/// The state that requests are served from: the index and the offset that
/// the hook was placed at, both fixed once built.
pub struct Interceptor {
    pub files: StreamFiles,
    pub hook_offset: usize,
    /// Whether the signature was found; when it was not, `hook_offset` is
    /// the default.
    pub signature_found: bool,
}

impl Interceptor {
    /// Takes the built index and places the hook at the first occurrence of
    /// the signature in the code region `text`, or at the default offset
    /// when it does not occur there.
    pub fn initialize(files: StreamFiles, text: &[u8]) -> (r: Self)
        ensures
            r.files@ == files@,
            r.signature_found ==> is_first_occurrence(text@, search_code_spec(), Some(r.hook_offset)),
            !r.signature_found ==> is_first_occurrence(text@, search_code_spec(), None)
                && r.hook_offset == DEFAULT_LOOKUP_OFFSET,
    {
        let code = search_code();
        match find_subsequence(text, code.as_slice()) {
            Some(hook_offset) => Interceptor { files, hook_offset, signature_found: true },
            None => Interceptor { files, hook_offset: DEFAULT_LOOKUP_OFFSET, signature_found: false },
        }
    }
}

/// The next step in serving a request.
pub enum Step {
    /// Hand the unmodified arguments to the host's own lookup.
    Forward,
    /// List this pool directory and resolve it.
    ListPool(String),
    /// Serve this file: read its length and fill the outputs.
    Serve(String),
}

/// The first step for a request of `hash`: forward a miss, serve a single
/// file, or resolve a pool.
pub fn lookup_by_stream_hash(files: &StreamFiles, hash: u64) -> (r: Step)
    ensures
        !files@.contains_key(hash) ==> r is Forward,
        files@.contains_key(hash) ==> match files@[hash] {
            AssetEntry::SingleFile(p) => r matches Step::Serve(q) && q@ == p@,
            AssetEntry::Pool(d) => r matches Step::ListPool(q) && q@ == d@,
        },
{
    match files.get(hash) {
        None => Step::Forward,
        Some(AssetEntry::SingleFile(p)) => Step::Serve(p.clone()),
        Some(AssetEntry::Pool(d)) => Step::ListPool(d.clone()),
    }
}

/// The step after listing the pool `directory`: serve one of its files drawn
/// at random, or forward the request when the pool holds no file.
pub fn resolve_pool(directory: &str, listing: &Vec<ListedEntry>) -> (r: Step)
    ensures
        ({
            let c = candidates_spec(directory@, listing@);
            &&& (c.len() == 0 <==> r is Forward)
            &&& r is Serve ==> exists|k: int| 0 <= k < c.len() && r->Serve_0@ == #[trigger] c[k]
            &&& !(r is ListPool)
        }),
{
    match random_media_select(directory, listing) {
        Ok(p) => Step::Serve(p),
        Err(_) => Step::Forward,
    }
}

/// The caller's location buffer cannot hold the path and its terminator.
#[derive(PartialEq, Eq, Structural, Debug, Clone, Copy)]
pub enum ServeError {
    BufferTooSmall,
}

/// What the location buffer holds after `path_bytes` is written to it:
/// the bytes, a zero terminator, then what was there before.
pub open spec fn written_location(path_bytes: Seq<u8>, before: Seq<u8>) -> Seq<u8> {
    path_bytes + seq![0u8] + before.skip(path_bytes.len() as int + 1)
}

/// Fills the outputs of a served request: the file's byte length, offset
/// zero, and the path as UTF-8 with a zero terminator in `out_path`. When
/// `out_path` is too small for both, nothing is written and the request
/// fails.
pub fn write_outputs(
    path: &str,
    file_len: u64,
    out_path: &mut [u8],
    size_out: &mut u64,
    offset_out: &mut u64,
) -> (r: Result<(), ServeError>)
    ensures
        ({
            let b = path.spec_bytes();
            if b.len() < old(out_path)@.len() {
                &&& r is Ok
                &&& *final(size_out) == file_len
                &&& *final(offset_out) == 0
                &&& final(out_path)@ == written_location(b, old(out_path)@)
            } else {
                &&& r == Err::<(), ServeError>(ServeError::BufferTooSmall)
                &&& *final(size_out) == *old(size_out)
                &&& *final(offset_out) == *old(offset_out)
                &&& final(out_path)@ == old(out_path)@
            }
        }),
{
    let bytes = path.as_bytes();
    let n: usize = bytes.len();
    if n >= out_path.len() {
        return Err(ServeError::BufferTooSmall);
    }
    let ghost before = out_path@;
    let mut i: usize = 0;
    while i < n
        invariant
            n == bytes@.len(),
            n < out_path@.len(),
            out_path@.len() == before.len(),
            i <= n,
            forall|k: int| 0 <= k < i ==> out_path@[k] == bytes@[k],
            forall|k: int| i <= k < before.len() ==> out_path@[k] == before[k],
        decreases n - i,
    {
        out_path[i] = bytes[i];
        i = i + 1;
    }
    out_path[n] = 0u8;
    *size_out = file_len;
    *offset_out = 0;
    assert(out_path@ =~= written_location(bytes@, before));
    Ok(())
}

} // verus!
