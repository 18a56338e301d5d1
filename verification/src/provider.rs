use vstd::prelude::*;

use vstd::string::StringSliceAdditionalSpecFns;

use crate::format::{extension_text, guess_model_extension, guessed_extension};

verus! {

/// Class id of the provider registered for `.obj` files.
pub const CLSID_OBJ_PROVIDER: u128 = 0x0ef2c8d1_7b70_48c9_b7b8_0f45d3d00001;

/// Class id of the provider registered for `.fbx` files.
pub const CLSID_FBX_PROVIDER: u128 = 0x0ef2c8d1_7b70_48c9_b7b8_0f45d3d00002;

/// Class id of the provider registered for `.glb` files.
pub const CLSID_GLB_PROVIDER: u128 = 0x0ef2c8d1_7b70_48c9_b7b8_0f45d3d00003;

/// Class id of the provider registered for `.gltf` files.
pub const CLSID_GLTF_PROVIDER: u128 = 0x0ef2c8d1_7b70_48c9_b7b8_0f45d3d00004;

/// Class id of the provider of earlier releases, registered for every format.
pub const CLSID_LEGACY_PROVIDER: u128 = 0x4c6f2b8a_5d2e_4c64_9ac7_b6fd046a8241;

/// The extension hint of the provider with class id `clsid`, if one is served.
pub open spec fn provider_extension(clsid: u128) -> Option<&'static str> {
    if clsid == CLSID_LEGACY_PROVIDER {
        Some(".model")
    } else if clsid == CLSID_OBJ_PROVIDER {
        Some(".obj")
    } else if clsid == CLSID_FBX_PROVIDER {
        Some(".fbx")
    } else if clsid == CLSID_GLB_PROVIDER {
        Some(".glb")
    } else if clsid == CLSID_GLTF_PROVIDER {
        Some(".gltf")
    } else {
        None
    }
}

/// Finds the provider that a class id names: its extension hint, or `None` where
/// the class is not one of ours.
pub fn find_provider(clsid: u128) -> (extension: Option<&'static str>)
    ensures
        extension == provider_extension(clsid),
{
    if clsid == CLSID_LEGACY_PROVIDER {
        Some(".model")
    } else if clsid == CLSID_OBJ_PROVIDER {
        Some(".obj")
    } else if clsid == CLSID_FBX_PROVIDER {
        Some(".fbx")
    } else if clsid == CLSID_GLB_PROVIDER {
        Some(".glb")
    } else if clsid == CLSID_GLTF_PROVIDER {
        Some(".gltf")
    } else {
        None
    }
}

/// The smallest side the shell is answered with.
pub const MIN_SHELL_SIZE: u32 = 32;

/// The largest side the shell is answered with.
pub const MAX_SHELL_SIZE: u32 = 512;

/// The side rendered for a thumbnail that the shell asks for at side `cx`: the
/// request held between `MIN_SHELL_SIZE` and `MAX_SHELL_SIZE`.
pub fn shell_thumbnail_size(cx: u32) -> (size: u32)
    ensures
        size == (if cx < MIN_SHELL_SIZE {
            MIN_SHELL_SIZE
        } else if cx > MAX_SHELL_SIZE {
            MAX_SHELL_SIZE
        } else {
            cx
        }),
{
    if cx < MIN_SHELL_SIZE {
        MIN_SHELL_SIZE
    } else if cx > MAX_SHELL_SIZE {
        MAX_SHELL_SIZE
    } else {
        cx
    }
}

/// `out` holds the first `n` texels of the RGBA8 bytes `src` with red and blue
/// swapped, as a device-independent bitmap stores them (blue, green, red, alpha).
pub open spec fn is_bgra_of(src: Seq<u8>, n: int, out: Seq<u8>) -> bool {
    &&& out.len() == 4 * n
    &&& forall|p: int|
        0 <= p < n ==> {
            &&& #[trigger] out[4 * p] == src[4 * p + 2]
            &&& out[4 * p + 1] == src[4 * p + 1]
            &&& out[4 * p + 2] == src[4 * p]
            &&& out[4 * p + 3] == src[4 * p + 3]
        }
}

/// How many texels are copied into a bitmap of `capacity` texels from `len` bytes:
/// the whole texels that both hold.
pub open spec fn copied_texels(len: int, capacity: int) -> int {
    if len / 4 <= capacity {
        len / 4
    } else {
        capacity
    }
}

/// The bytes of a bitmap of `capacity` texels in blue-green-red-alpha order, made
/// from the whole texels of an RGBA8 image, as far as both reach.
pub fn rgba_to_bgra(src: &[u8], capacity: usize) -> (out: Vec<u8>)
    ensures
        is_bgra_of(src@, copied_texels(src@.len() as int, capacity as int), out@),
{
    let len = src.len();
    let n: usize = if len / 4 <= capacity {
        len / 4
    } else {
        capacity
    };
    let mut out: Vec<u8> = Vec::new();
    let mut p: usize = 0;
    while p < n
        invariant
            n <= len / 4,
            len == src@.len(),
            p <= n,
            out@.len() == 4 * p,
            forall|q: int|
                0 <= q < p ==> {
                    &&& #[trigger] out@[4 * q] == src@[4 * q + 2]
                    &&& out@[4 * q + 1] == src@[4 * q + 1]
                    &&& out@[4 * q + 2] == src@[4 * q]
                    &&& out@[4 * q + 3] == src@[4 * q + 3]
                },
        decreases n - p,
    {
        let i = 4 * p;
        let ghost before = out@;
        out.push(src[i + 2]);
        out.push(src[i + 1]);
        out.push(src[i]);
        out.push(src[i + 3]);
        assert forall|q: int| 0 <= q < p + 1 implies {
            &&& #[trigger] out@[4 * q] == src@[4 * q + 2]
            &&& out@[4 * q + 1] == src@[4 * q + 1]
            &&& out@[4 * q + 2] == src@[4 * q]
            &&& out@[4 * q + 3] == src@[4 * q + 3]
        } by {
            if q < p {
                assert(out@[4 * q] == before[4 * q]);
                assert(out@[4 * q + 1] == before[4 * q + 1]);
                assert(out@[4 * q + 2] == before[4 * q + 2]);
                assert(out@[4 * q + 3] == before[4 * q + 3]);
            }
        }
        p = p + 1;
    }
    out
}

/// How many leading bytes of a streamed model are kept to guess its format.
pub const PREFIX_LEN: usize = 128;

/// The copy of a model stream into a temporary file, seen from the side of its
/// decisions: how much to ask for next, when to stop, and which first bytes to keep.
pub struct StreamCopy {
    /// Bytes the stream announced and that have not been read yet.
    pub remaining: u64,
    /// The first bytes read, up to `PREFIX_LEN` of them.
    pub prefix: Vec<u8>,
    /// Everything read so far.
    pub consumed: Ghost<Seq<u8>>,
    /// The size the stream announced.
    pub announced: Ghost<nat>,
}

/// `a - b`, or 0 where `b` is larger.
pub open spec fn saturating_sub(a: int, b: int) -> int {
    if a >= b {
        a - b
    } else {
        0
    }
}

/// The bytes kept to guess the format, after `consumed` has been read.
pub open spec fn kept_prefix(consumed: Seq<u8>) -> Seq<u8> {
    if consumed.len() <= PREFIX_LEN {
        consumed
    } else {
        consumed.take(PREFIX_LEN as int)
    }
}

/// What the copy does next.
#[derive(Clone, Copy, Debug, PartialEq, Eq, Structural)]
pub enum CopyStep {
    /// Read at most this many bytes from the stream.
    Read(u32),
    /// Nothing is left to read.
    Finish,
}

impl StreamCopy {
    /// The copy keeps the first bytes of what it read, and counts down the
    /// announced size by what it read.
    pub open spec fn wf(&self) -> bool {
        &&& self.prefix@ == kept_prefix(self.consumed@)
        &&& self.remaining == saturating_sub(self.announced@ as int, self.consumed@.len() as int)
    }

    /// A copy of a stream that announced `size` bytes, before anything is read.
    pub fn new(size: u64) -> (copy: Self)
        ensures
            copy.wf(),
            copy.remaining == size,
            copy.consumed@ == Seq::<u8>::empty(),
            copy.announced@ == size as nat,
    {
        let copy = StreamCopy {
            remaining: size,
            prefix: Vec::new(),
            consumed: Ghost(Seq::empty()),
            announced: Ghost(size as nat),
        };
        assert(copy.prefix@ =~= kept_prefix(copy.consumed@));
        copy
    }

    /// The next step for a read buffer of `buffer_len` bytes: read as much as the
    /// buffer, the rest of the stream and a `u32` count allow, or finish when that
    /// is nothing.
    pub fn next_step(&self, buffer_len: usize) -> (step: CopyStep)
        ensures
            ({
                let n = if buffer_len <= self.remaining && buffer_len <= u32::MAX {
                    buffer_len as int
                } else if self.remaining <= u32::MAX {
                    self.remaining as int
                } else {
                    u32::MAX as int
                };
                &&& n == 0 ==> step == CopyStep::Finish
                &&& n > 0 ==> step == CopyStep::Read(n as u32)
            }),
    {
        let capped: u64 = if self.remaining <= u32::MAX as u64 {
            self.remaining
        } else {
            u32::MAX as u64
        };
        let requested: u64 = if (buffer_len as u64) <= capped {
            buffer_len as u64
        } else {
            capped
        };
        if requested == 0 {
            CopyStep::Finish
        } else {
            CopyStep::Read(requested as u32)
        }
    }

    /// Takes in the bytes of one read. An empty read ends the stream: the copy
    /// stops, and nothing changes. Otherwise the bytes count as read, the
    /// first of them are kept, and the announced size left is lowered (not below 0).
    pub fn record_read(&mut self, chunk: &[u8]) -> (more: bool)
        requires
            old(self).wf(),
        ensures
            final(self).wf(),
            final(self).announced == old(self).announced,
            more == (chunk@.len() > 0),
            more ==> final(self).consumed@ == old(self).consumed@ + chunk@,
            !more ==> final(self).consumed@ == old(self).consumed@,
    {
        let read = chunk.len();
        if read == 0 {
            return false;
        }
        let ghost before = self.consumed@;
        let ghost after = before + chunk@;
        if self.prefix.len() < PREFIX_LEN {
            let take: usize = if PREFIX_LEN - self.prefix.len() <= read {
                PREFIX_LEN - self.prefix.len()
            } else {
                read
            };
            let mut i: usize = 0;
            while i < take
                invariant
                    i <= take,
                    take <= chunk@.len(),
                    before.len() < PREFIX_LEN,
                    before.len() + take <= PREFIX_LEN,
                    self.prefix@ == before + chunk@.take(i as int),
                    self.remaining == old(self).remaining,
                    self.announced == old(self).announced,
                    self.consumed == old(self).consumed,
                decreases take - i,
            {
                self.prefix.push(chunk[i]);
                assert(chunk@.take(i + 1) =~= chunk@.take(i as int).push(chunk@[i as int]));
                i = i + 1;
            }
            assert(self.prefix@ =~= kept_prefix(after)) by {
                if after.len() <= PREFIX_LEN {
                    assert(chunk@.take(take as int) =~= chunk@);
                }
            }
        } else {
            assert(kept_prefix(after) =~= kept_prefix(before));
        }
        let read64: u64 = read as u64;
        self.remaining = if self.remaining >= read64 {
            self.remaining - read64
        } else {
            0
        };
        self.consumed = Ghost(after);
        true
    }
}

/// `.`
pub const DOT: u8 = 46;

/// `model`, the hint of the provider registered for every format.
pub const MODEL_HINT: [u8; 5] = [109, 111, 100, 101, 108];

/// The extension that a provider's hint names: the text after a leading dot, unless
/// that text is empty or is `model`.
pub open spec fn hinted_extension(hint: Seq<u8>) -> Option<Seq<u8>> {
    if hint.len() > 1 && hint[0] == DOT && hint.skip(1) != MODEL_HINT@ {
        Some(hint.skip(1))
    } else {
        None
    }
}

/// The extension given to a streamed model: the one its provider's hint names, or
/// else the one guessed from its first bytes.
pub fn stream_extension<'a>(hint: &'a str, prefix: &[u8]) -> (ext: &'a str)
    ensures
        hinted_extension(hint.spec_bytes()) matches Some(e) ==> ext.spec_bytes() == e,
        hinted_extension(hint.spec_bytes()) is None ==> ext == extension_text(
            guessed_extension(prefix@),
        ),
{
    let bytes = hint.as_bytes();
    if bytes.len() > 1 && bytes[0] == DOT {
        proof {
            broadcast use vstd::utf8::encode_utf8_valid_utf8;
            reveal_with_fuel(vstd::utf8::is_char_boundary, 2);
            assert(vstd::utf8::valid_utf8(hint.spec_bytes()));
        }
        let (_dot, rest) = hint.split_at(1);
        let rest_bytes = rest.as_bytes();
        if !same_bytes(rest_bytes, &MODEL_HINT) {
            assert(rest.spec_bytes() =~= hint.spec_bytes().skip(1));
            return rest;
        }
        assert(rest.spec_bytes() =~= hint.spec_bytes().skip(1));
    }
    guess_model_extension(prefix)
}

/// `a` and `b` hold the same bytes.
fn same_bytes(a: &[u8], b: &[u8]) -> (res: bool)
    ensures
        res == (a@ == b@),
{
    if a.len() != b.len() {
        return false;
    }
    let mut i: usize = 0;
    while i < a.len()
        invariant
            a@.len() == b@.len(),
            i <= a@.len(),
            forall|j: int| 0 <= j < i ==> a@[j] == b@[j],
        decreases a@.len() - i,
    {
        if a[i] != b[i] {
            return false;
        }
        i = i + 1;
    }
    assert(a@ =~= b@);
    true
}

/// Swapping red and blue twice gives back the texels one started from.
pub proof fn lemma_bgra_twice_restores(src: Seq<u8>, n: int, once: Seq<u8>, twice: Seq<u8>)
    requires
        0 <= n,
        4 * n <= src.len(),
        is_bgra_of(src, n, once),
        is_bgra_of(once, n, twice),
    ensures
        twice == src.take(4 * n),
{
    assert forall|i: int| 0 <= i < 4 * n implies twice[i] == src.take(4 * n)[i] by {
        let p = i / 4;
        assert(0 <= p < n);
        assert(i == 4 * p + i % 4);
        let _ = once[4 * p];
        let _ = twice[4 * p];
    }
    assert(twice =~= src.take(4 * n));
}

/// Reading more never changes the bytes already kept: what was kept before is the
/// start of what is kept after, and once `PREFIX_LEN` bytes are kept they stay.
pub proof fn lemma_kept_prefix_grows(consumed: Seq<u8>, chunk: Seq<u8>)
    ensures
        kept_prefix(consumed + chunk).take(kept_prefix(consumed).len() as int) == kept_prefix(
            consumed,
        ),
        consumed.len() >= PREFIX_LEN ==> kept_prefix(consumed + chunk) == kept_prefix(consumed),
{
    let all = consumed + chunk;
    assert(kept_prefix(all).take(kept_prefix(consumed).len() as int) =~= kept_prefix(consumed));
    if consumed.len() >= PREFIX_LEN {
        assert(kept_prefix(all) =~= kept_prefix(consumed));
    }
}

} // verus!
