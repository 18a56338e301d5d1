use vstd::prelude::*;

use crate::options::RenderError;

verus! {

/// The loaders: each model file goes to the one that reads its format.
#[derive(Clone, Copy, Debug, PartialEq, Eq, Structural)]
pub enum ModelFormat {
    /// Wavefront OBJ (`.obj`).
    Obj,
    /// glTF, as JSON (`.gltf`) or binary (`.glb`).
    Gltf,
    /// Autodesk FBX (`.fbx`).
    Fbx,
}

/// A byte with ASCII capitals made small; every other byte is kept.
pub open spec fn lower_byte(b: u8) -> u8 {
    if 65 <= b <= 90 {
        (b + 32) as u8
    } else {
        b
    }
}

/// `s` with ASCII capitals made small, as `str::to_ascii_lowercase` does.
pub open spec fn ascii_lower(s: Seq<u8>) -> Seq<u8> {
    s.map_values(|b: u8| lower_byte(b))
}

/// `obj` in ASCII.
pub const OBJ_EXTENSION: [u8; 3] = [111, 98, 106];

/// `glb` in ASCII.
pub const GLB_EXTENSION: [u8; 3] = [103, 108, 98];

/// `gltf` in ASCII.
pub const GLTF_EXTENSION: [u8; 4] = [103, 108, 116, 102];

/// `fbx` in ASCII.
pub const FBX_EXTENSION: [u8; 3] = [102, 98, 120];

/// The loader for a file extension (without its dot), whatever its ASCII case.
pub open spec fn format_for_extension(extension: Seq<u8>) -> Option<ModelFormat> {
    let e = ascii_lower(extension);
    if e == OBJ_EXTENSION@ {
        Some(ModelFormat::Obj)
    } else if e == GLB_EXTENSION@ || e == GLTF_EXTENSION@ {
        Some(ModelFormat::Gltf)
    } else if e == FBX_EXTENSION@ {
        Some(ModelFormat::Fbx)
    } else {
        None
    }
}

/// `s`, read with ASCII capitals made small, is `word`.
fn lower_equals(s: &[u8], word: &[u8]) -> (res: bool)
    ensures
        res == (ascii_lower(s@) == word@),
{
    if s.len() != word.len() {
        assert(ascii_lower(s@).len() != word@.len());
        return false;
    }
    let mut i: usize = 0;
    while i < s.len()
        invariant
            s@.len() == word@.len(),
            i <= s@.len(),
            forall|j: int| 0 <= j < i ==> lower_byte(s@[j]) == word@[j],
        decreases s@.len() - i,
    {
        let b = s[i];
        let lowered: u8 = if 65 <= b && b <= 90 {
            b + 32
        } else {
            b
        };
        if lowered != word[i] {
            assert(ascii_lower(s@)[i as int] != word@[i as int]);
            return false;
        }
        i = i + 1;
    }
    assert(ascii_lower(s@) =~= word@);
    true
}

/// Picks the loader for a file from its extension (without the dot; empty where
/// the file has none), comparing without regard to ASCII case; any other
/// extension is refused as an unsupported format.
pub fn model_format(extension: &[u8]) -> (res: Result<ModelFormat, RenderError>)
    ensures
        res matches Ok(f) ==> format_for_extension(extension@) == Some(f),
        res matches Err(e) ==> e is UnsupportedFormat && format_for_extension(extension@) is None,
{
    if lower_equals(extension, &OBJ_EXTENSION) {
        Ok(ModelFormat::Obj)
    } else if lower_equals(extension, &GLB_EXTENSION) || lower_equals(extension, &GLTF_EXTENSION) {
        Ok(ModelFormat::Gltf)
    } else if lower_equals(extension, &FBX_EXTENSION) {
        Ok(ModelFormat::Fbx)
    } else {
        Err(RenderError::UnsupportedFormat)
    }
}

/// The extension given to a model that arrives as a stream, from its first bytes.
#[derive(Clone, Copy, Debug, PartialEq, Eq, Structural)]
pub enum GuessedExtension {
    Glb,
    Gltf,
    Fbx,
    Obj,
}

/// `glTF`, the magic of a binary glTF file.
pub const GLB_MAGIC: [u8; 4] = [103, 108, 84, 70];

/// `Kaydara FBX Binary`, the magic of a binary FBX file.
pub const FBX_BINARY_MAGIC: [u8; 18] = [
    75, 97, 121, 100, 97, 114, 97, 32, 70, 66, 88, 32, 66, 105, 110, 97, 114, 121,
];

/// `{`, which opens a JSON glTF file.
pub const JSON_OPEN: [u8; 1] = [123];

/// `; FBX`, the first line of an ASCII FBX file.
pub const FBX_ASCII_HEADER: [u8; 5] = [59, 32, 70, 66, 88];

/// `FBX`.
pub const FBX_WORD: [u8; 3] = [70, 66, 88];

/// `v `, a vertex line of an OBJ file.
pub const OBJ_VERTEX: [u8; 2] = [118, 32];

/// `#`, a comment line of an OBJ file.
pub const OBJ_COMMENT: [u8; 1] = [35];

/// `o `, an object line of an OBJ file.
pub const OBJ_OBJECT: [u8; 2] = [111, 32];

/// `mtllib`, a material library line of an OBJ file.
pub const OBJ_MTLLIB: [u8; 6] = [109, 116, 108, 108, 105, 98];

pub open spec fn starts_with(s: Seq<u8>, p: Seq<u8>) -> bool {
    p.len() <= s.len() && s.take(p.len() as int) == p
}

/// `w` occurs somewhere in `s`.
pub open spec fn contains_run(s: Seq<u8>, w: Seq<u8>) -> bool {
    exists|i: int| 0 <= i && i + w.len() <= s.len() && #[trigger] s.subrange(i, i + w.len()) == w
}

/// ASCII white space as `u8::is_ascii_whitespace` counts it: space, tab, line feed,
/// form feed, carriage return.
pub open spec fn is_ascii_space(b: u8) -> bool {
    b == 32 || b == 9 || b == 10 || b == 12 || b == 13
}

/// `s` without its leading ASCII white space.
pub open spec fn trim_start(s: Seq<u8>) -> Seq<u8>
    decreases s.len(),
{
    if s.len() > 0 && is_ascii_space(s[0]) {
        trim_start(s.drop_first())
    } else {
        s
    }
}

/// The extension guessed for a model from its first bytes: binary glTF and FBX by
/// their magic; after leading white space, JSON glTF by its brace, text FBX by
/// the word `FBX`, OBJ by its usual first lines; anything else is taken for
/// binary glTF.
pub open spec fn guessed_extension(prefix: Seq<u8>) -> GuessedExtension {
    let trimmed = trim_start(prefix);
    if starts_with(prefix, GLB_MAGIC@) {
        GuessedExtension::Glb
    } else if starts_with(prefix, FBX_BINARY_MAGIC@) {
        GuessedExtension::Fbx
    } else if starts_with(trimmed, JSON_OPEN@) {
        GuessedExtension::Gltf
    } else if starts_with(trimmed, FBX_ASCII_HEADER@) || contains_run(trimmed, FBX_WORD@) {
        GuessedExtension::Fbx
    } else if starts_with(trimmed, OBJ_VERTEX@) || starts_with(trimmed, OBJ_COMMENT@)
        || starts_with(trimmed, OBJ_OBJECT@) || starts_with(trimmed, OBJ_MTLLIB@) {
        GuessedExtension::Obj
    } else {
        GuessedExtension::Glb
    }
}

/// The text of an extension.
pub open spec fn extension_text(e: GuessedExtension) -> &'static str {
    match e {
        GuessedExtension::Glb => "glb",
        GuessedExtension::Gltf => "gltf",
        GuessedExtension::Fbx => "fbx",
        GuessedExtension::Obj => "obj",
    }
}

/// `s[start..]` begins with `p`.
fn starts_with_at(s: &[u8], start: usize, p: &[u8]) -> (res: bool)
    requires
        start <= s@.len(),
    ensures
        res == starts_with(s@.skip(start as int), p@),
{
    let len = s.len();
    if p.len() > len - start {
        return false;
    }
    let mut i: usize = 0;
    while i < p.len()
        invariant
            start <= len,
            len == s@.len(),
            p@.len() <= len - start,
            i <= p@.len(),
            forall|j: int| 0 <= j < i ==> s@[start + j] == p@[j],
        decreases p@.len() - i,
    {
        if s[start + i] != p[i] {
            assert(s@.skip(start as int).take(p@.len() as int)[i as int] != p@[i as int]);
            return false;
        }
        i = i + 1;
    }
    assert(s@.skip(start as int).take(p@.len() as int) =~= p@);
    true
}

/// `p` occurs somewhere in `s[start..]`.
fn contains_run_from(s: &[u8], start: usize, p: &[u8]) -> (res: bool)
    requires
        start <= s@.len(),
        p@.len() > 0,
    ensures
        res == contains_run(s@.skip(start as int), p@),
{
    let ghost t = s@.skip(start as int);
    let len = s.len();
    let mut i: usize = start;
    while i < len
        invariant
            start <= i <= len,
            len == s@.len(),
            t == s@.skip(start as int),
            p@.len() > 0,
            forall|k: int|
                0 <= k < i - start && k + p@.len() <= t.len() ==> #[trigger] t.subrange(
                    k,
                    k + p@.len(),
                ) != p@,
        decreases len - i,
    {
        if starts_with_at(s, i, p) {
            let ghost k = i - start;
            assert(t.subrange(k, k + p@.len()) =~= s@.skip(i as int).take(p@.len() as int));
            return true;
        }
        proof {
            let k = i - start;
            if k + p@.len() <= t.len() {
                assert(t.subrange(k, k + p@.len()) =~= s@.skip(i as int).take(p@.len() as int));
            }
        }
        i = i + 1;
    }
    assert forall|k: int| 0 <= k && k + p@.len() <= t.len() implies #[trigger] t.subrange(
        k,
        k + p@.len(),
    ) != p@ by {}
    false
}

/// Index of the first byte of `s` that is not ASCII white space (or its length).
fn first_non_space(s: &[u8]) -> (k: usize)
    ensures
        k <= s@.len(),
        trim_start(s@) == s@.skip(k as int),
{
    let len = s.len();
    let mut k: usize = 0;
    assert(s@.skip(0) =~= s@);
    while k < len && (s[k] == 32 || s[k] == 9 || s[k] == 10 || s[k] == 12 || s[k] == 13)
        invariant
            k <= len,
            len == s@.len(),
            trim_start(s@) == trim_start(s@.skip(k as int)),
        decreases len - k,
    {
        assert(s@.skip(k as int).drop_first() =~= s@.skip(k + 1));
        k = k + 1;
    }
    k
}

/// Guesses the extension of a model from its first bytes (see `guessed_extension`).
pub fn guess_model_extension(prefix: &[u8]) -> (ext: &'static str)
    ensures
        ext == extension_text(guessed_extension(prefix@)),
{
    assert(prefix@.skip(0) =~= prefix@);
    if starts_with_at(prefix, 0, &GLB_MAGIC) {
        return "glb";
    }
    if starts_with_at(prefix, 0, &FBX_BINARY_MAGIC) {
        return "fbx";
    }
    let k = first_non_space(prefix);
    if starts_with_at(prefix, k, &JSON_OPEN) {
        return "gltf";
    }
    if starts_with_at(prefix, k, &FBX_ASCII_HEADER) || contains_run_from(prefix, k, &FBX_WORD) {
        return "fbx";
    }
    if starts_with_at(prefix, k, &OBJ_VERTEX) || starts_with_at(prefix, k, &OBJ_COMMENT)
        || starts_with_at(prefix, k, &OBJ_OBJECT) || starts_with_at(prefix, k, &OBJ_MTLLIB) {
        return "obj";
    }
    "glb"
}

proof fn lemma_lower_idempotent(s: Seq<u8>)
    ensures
        ascii_lower(ascii_lower(s)) == ascii_lower(s),
{
    assert(ascii_lower(ascii_lower(s)) =~= ascii_lower(s));
}

/// The loader picked for an extension does not depend on its ASCII case.
pub proof fn lemma_format_ignores_case(extension: Seq<u8>)
    ensures
        format_for_extension(extension) == format_for_extension(ascii_lower(extension)),
{
    lemma_lower_idempotent(extension);
}


/// Leading white space of `s` ends at `k`: the bytes before `k` are space, tab, line
/// feed, form feed or carriage return, and the byte at `k` (if any) is not.
proof fn lemma_trim_start_skips(s: Seq<u8>, k: int)
    requires
        0 <= k <= s.len(),
        forall|i: int|
            0 <= i < k ==> (s[i] == 32 || s[i] == 9 || s[i] == 10 || s[i] == 12 || s[i] == 13),
        k < s.len() ==> !(s[k] == 32 || s[k] == 9 || s[k] == 10 || s[k] == 12 || s[k] == 13),
    ensures
        trim_start(s) == s.skip(k),
    decreases k,
{
    if k == 0 {
        assert(s.skip(0) =~= s);
    } else {
        let t = s.drop_first();
        assert forall|i: int| 0 <= i < k - 1 implies (t[i] == 32 || t[i] == 9 || t[i] == 10
            || t[i] == 12 || t[i] == 13) by {
            assert(t[i] == s[i + 1]);
        }
        lemma_trim_start_skips(t, k - 1);
        assert(t.skip(k - 1) =~= s.skip(k));
    }
}

/// A model whose first byte after ASCII white space (space, tab, line feed, form feed,
/// carriage return) is `{` is taken for JSON glTF, whatever follows the brace —
/// even text that names FBX.
pub proof fn lemma_brace_means_json_gltf(prefix: Seq<u8>, k: int)
    requires
        0 <= k < prefix.len(),
        forall|i: int|
            0 <= i < k ==> (prefix[i] == 32 || prefix[i] == 9 || prefix[i] == 10 || prefix[i]
                == 12 || prefix[i] == 13),
        prefix[k] == 123,
    ensures
        guessed_extension(prefix) == GuessedExtension::Gltf,
{
    lemma_trim_start_skips(prefix, k);
    let trimmed = prefix.skip(k);
    assert(trimmed.take(1) =~= seq![123u8]);
    assert(JSON_OPEN@ =~= seq![123u8]);
    assert(!starts_with(prefix, GLB_MAGIC@)) by {
        if starts_with(prefix, GLB_MAGIC@) {
            assert(prefix.take(4)[0] == GLB_MAGIC@[0]);
        }
    }
    assert(!starts_with(prefix, FBX_BINARY_MAGIC@)) by {
        if starts_with(prefix, FBX_BINARY_MAGIC@) {
            assert(prefix.take(18)[0] == FBX_BINARY_MAGIC@[0]);
        }
    }
}

/// `ext` spells `word` in any mix of ASCII cases: each byte is the byte of `word` or,
/// where that is a small letter, its capital (32 less).
pub open spec fn spells_in_any_case(ext: Seq<u8>, word: Seq<u8>) -> bool {
    &&& ext.len() == word.len()
    &&& forall|i: int|
        0 <= i < word.len() ==> ext[i] == word[i] || (97 <= word[i] <= 122 && ext[i] + 32
            == word[i])
}

/// Lowering makes each ASCII capital the small letter 32 above it and keeps every
/// other byte, so any case spelling of a lower-case word lowers to that word.
pub proof fn lemma_lowering_capitals(ext: Seq<u8>, word: Seq<u8>)
    requires
        spells_in_any_case(ext, word),
        forall|i: int| 0 <= i < word.len() ==> !(65 <= #[trigger] word[i] <= 90),
    ensures
        forall|b: u8| 65 <= b <= 90 ==> #[trigger] lower_byte(b) == b + 32,
        forall|b: u8| !(65 <= b <= 90) ==> #[trigger] lower_byte(b) == b,
        ascii_lower(ext) == word,
{
    assert forall|i: int| 0 <= i < word.len() implies ascii_lower(ext)[i] == word[i] by {
        if ext[i] != word[i] {
            assert(65 <= ext[i] <= 90);
        }
    }
    assert(ascii_lower(ext) =~= word);
}

/// Every ASCII case spelling of `obj`, `glb`, `gltf` and `fbx` names its loader, so
/// `model_format` accepts it (`Character.FBX` is read as FBX).
pub proof fn lemma_any_case_extension_is_read(ext: Seq<u8>)
    ensures
        spells_in_any_case(ext, seq![111u8, 98, 106]) ==> format_for_extension(ext) == Some(
            ModelFormat::Obj,
        ),
        spells_in_any_case(ext, seq![103u8, 108, 98]) ==> format_for_extension(ext) == Some(
            ModelFormat::Gltf,
        ),
        spells_in_any_case(ext, seq![103u8, 108, 116, 102]) ==> format_for_extension(ext)
            == Some(ModelFormat::Gltf),
        spells_in_any_case(ext, seq![102u8, 98, 120]) ==> format_for_extension(ext) == Some(
            ModelFormat::Fbx,
        ),
{
    assert(OBJ_EXTENSION@ =~= seq![111u8, 98, 106]);
    assert(GLB_EXTENSION@ =~= seq![103u8, 108, 98]);
    assert(GLTF_EXTENSION@ =~= seq![103u8, 108, 116, 102]);
    assert(FBX_EXTENSION@ =~= seq![102u8, 98, 120]);
    if spells_in_any_case(ext, seq![111u8, 98, 106]) {
        lemma_lowering_capitals(ext, seq![111u8, 98, 106]);
    }
    if spells_in_any_case(ext, seq![103u8, 108, 98]) {
        lemma_lowering_capitals(ext, seq![103u8, 108, 98]);
    }
    if spells_in_any_case(ext, seq![103u8, 108, 116, 102]) {
        lemma_lowering_capitals(ext, seq![103u8, 108, 116, 102]);
        assert(seq![103u8, 108, 116, 102] != OBJ_EXTENSION@);
    }
    if spells_in_any_case(ext, seq![102u8, 98, 120]) {
        lemma_lowering_capitals(ext, seq![102u8, 98, 120]);
        assert(seq![102u8, 98, 120] != OBJ_EXTENSION@);
        assert(seq![102u8, 98, 120] != GLB_EXTENSION@);
    }
}

} // verus!
