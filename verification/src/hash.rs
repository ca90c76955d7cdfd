use vstd::prelude::*;

use vstd::string::StringSliceAdditionalSpecFns;

use crate::model::{kind_name, EntityKind};
use crate::text::{
    char_is_whitespace, chars_of, is_ws, join_words, lemma_join_extend_last, lemma_join_push,
    lemma_words_nonempty, normalized, words,
};

verus! {

/// The lowercase hexadecimal BLAKE3 digest of `data`.
pub uninterp spec fn blake3_hex(data: Seq<u8>) -> Seq<char>;

pub open spec fn is_lower_hex(c: char) -> bool {
    ('0' <= c <= '9') || ('a' <= c <= 'f')
}

/// Runs `blake3::Hasher` over `data` (`Hasher::new`, one `update`, `finalize`) and renders the
/// digest with `Hash::to_hex`. Trusted: the result is the digest's name applied to the bytes,
/// and `to_hex` writes 32 bytes as 64 lowercase hexadecimal digits.
#[verifier::external_body]
fn blake3_digest_hex(data: &[u8]) -> (r: String)
    ensures
        r@ == blake3_hex(data@),
        r@.len() == 64,
        forall|i: int| 0 <= i < r@.len() ==> is_lower_hex(#[trigger] r@[i]),
{
    let mut hasher = blake3::Hasher::new();
    hasher.update(data);
    hasher.finalize().to_hex().to_string()
}

/// The digest of the UTF-8 bytes of `value`.
pub fn hash_string(value: &str) -> (r: String)
    ensures
        r@ == blake3_hex(vstd::utf8::encode_utf8(value@)),
        r@.len() == 64,
        forall|i: int| 0 <= i < r@.len() ==> is_lower_hex(#[trigger] r@[i]),
{
    blake3_digest_hex(value.as_bytes())
}

/// The bytes of the parts, each followed by a zero byte.
pub open spec fn nul_terminated(parts: Seq<Seq<u8>>) -> Seq<u8>
    decreases parts.len(),
{
    if parts.len() == 0 {
        seq![]
    } else {
        nul_terminated(parts.drop_last()) + parts.last() + seq![0u8]
    }
}

pub open spec fn utf8_parts(parts: Seq<&str>) -> Seq<Seq<u8>> {
    parts.map_values(|p: &str| vstd::utf8::encode_utf8(p@))
}

/// The digest of the parts' bytes, each part followed by a zero byte.
pub fn hash_join(parts: &[&str]) -> (r: String)
    ensures
        r@ == blake3_hex(nul_terminated(utf8_parts(parts@))),
        r@.len() == 64,
        forall|i: int| 0 <= i < r@.len() ==> is_lower_hex(#[trigger] r@[i]),
{
    let mut data: Vec<u8> = Vec::new();
    let n = parts.len();
    let mut i: usize = 0;
    while i < n
        invariant
            n == parts@.len(),
            0 <= i <= n,
            data@ == nul_terminated(utf8_parts(parts@.take(i as int))),
        decreases n - i,
    {
        let bytes = parts[i].as_bytes();
        let m = bytes.len();
        let ghost before = data@;
        let mut j: usize = 0;
        while j < m
            invariant
                m == bytes@.len(),
                0 <= j <= m,
                data@ == before + bytes@.take(j as int),
            decreases m - j,
        {
            data.push(bytes[j]);
            assert(bytes@.take(j + 1) =~= bytes@.take(j as int).push(bytes@[j as int]));
            assert(data@ =~= before + bytes@.take(j + 1));
            j = j + 1;
        }
        data.push(0u8);
        proof {
            assert(bytes@.take(m as int) =~= bytes@);
            let taken = utf8_parts(parts@.take(i + 1));
            assert(taken.drop_last() =~= utf8_parts(parts@.take(i as int)));
            assert(taken.last() == bytes@);
            assert(data@ =~= nul_terminated(taken));
        }
        i = i + 1;
    }
    assert(parts@.take(n as int) =~= parts@);
    blake3_digest_hex(data.as_slice())
}

/// Collapses every run of whitespace to one space and trims both ends.
pub fn normalize_whitespace(value: &str) -> (r: String)
    ensures
        r@ == normalized(value@),
{
    let chars = chars_of(value);
    let mut out = String::new();
    let mut in_word = false;
    let n = chars.len();
    let mut i: usize = 0;
    while i < n
        invariant
            n == chars@.len(),
            chars@ == value@,
            0 <= i <= n,
            out@ == join_words(words(chars@.take(i as int))),
            in_word == (i > 0 && !is_ws(chars@[i - 1])),
            (out@.len() > 0) == (words(chars@.take(i as int)).len() > 0),
        decreases n - i,
    {
        let c = chars[i];
        let ghost pre = chars@.take(i as int);
        let ghost cur = chars@.take(i + 1);
        assert(cur.drop_last() =~= pre);
        assert(cur.last() == c);
        if char_is_whitespace(c) {
            in_word = false;
        } else {
            proof {
                lemma_words_nonempty(cur);
            }
            if in_word {
                assert(cur[cur.len() - 2] == chars@[i - 1]);
                proof {
                    lemma_words_nonempty(pre);
                    lemma_join_extend_last(words(pre), c);
                }
                out.push(c);
            } else {
                proof {
                    lemma_join_push(words(pre), c);
                }
                if !out.as_str().is_empty() {
                    out.push(' ');
                }
                out.push(c);
                in_word = true;
            }
        }
        i = i + 1;
    }
    assert(chars@.take(n as int) =~= chars@);
    out
}


/// The parts that make up an entity id.
pub open spec fn entity_id_parts(
    kind: EntityKind,
    parent_anchor: Seq<char>,
    declared_name: Seq<char>,
    shape: Seq<char>,
) -> Seq<Seq<char>> {
    seq!["entity-id-v1"@, kind_name(kind), parent_anchor, declared_name, shape]
}

pub open spec fn utf8_of(parts: Seq<Seq<char>>) -> Seq<Seq<u8>> {
    parts.map_values(|p: Seq<char>| vstd::utf8::encode_utf8(p))
}

/// The id that `build_entity_id` gives an entity.
pub open spec fn entity_id_of(
    kind: EntityKind,
    parent_anchor: Seq<char>,
    declared_name: Seq<char>,
    shape: Seq<char>,
) -> Seq<char> {
    blake3_hex(nul_terminated(utf8_of(entity_id_parts(kind, parent_anchor, declared_name, shape))))
}

pub open spec fn shape_hash_of(kind: EntityKind, parent_anchor: Seq<char>, shape: Seq<char>) -> Seq<
    char,
> {
    blake3_hex(
        nul_terminated(utf8_of(seq!["entity-shape-v1"@, kind_name(kind), parent_anchor, shape])),
    )
}

pub open spec fn full_hash_of(kind: EntityKind, signature_hash: Seq<char>, body_hash: Seq<char>) -> Seq<
    char,
> {
    blake3_hex(
        nul_terminated(
            utf8_of(seq!["entity-full-v1"@, kind_name(kind), signature_hash, body_hash]),
        ),
    )
}

proof fn lemma_utf8_parts(parts: Seq<&str>, views: Seq<Seq<char>>)
    requires
        parts.len() == views.len(),
        forall|i: int| 0 <= i < parts.len() ==> #[trigger] parts[i]@ == views[i],
    ensures
        utf8_parts(parts) == utf8_of(views),
{
    assert(utf8_parts(parts) =~= utf8_of(views));
}

pub fn build_entity_id(
    kind: EntityKind,
    parent_anchor: &str,
    declared_name: &str,
    normalized_signature_shape: &str,
) -> (r: String)
    ensures
        r@ == entity_id_of(kind, parent_anchor@, declared_name@, normalized_signature_shape@),
        r@.len() == 64,
        forall|i: int| 0 <= i < r@.len() ==> is_lower_hex(#[trigger] r@[i]),
{
    let tag = "entity-id-v1";
    proof {
        reveal_strlit("entity-id-v1");
    }
    let parts = [tag, kind.as_str(), parent_anchor, declared_name, normalized_signature_shape];
    proof {
        lemma_utf8_parts(
            parts@,
            entity_id_parts(kind, parent_anchor@, declared_name@, normalized_signature_shape@),
        );
    }
    hash_join(&parts)
}

pub fn build_shape_hash(kind: EntityKind, parent_anchor: &str, signature_shape: &str) -> (r: String)
    ensures
        r@ == shape_hash_of(kind, parent_anchor@, signature_shape@),
        r@.len() == 64,
        forall|i: int| 0 <= i < r@.len() ==> is_lower_hex(#[trigger] r@[i]),
{
    let tag = "entity-shape-v1";
    proof {
        reveal_strlit("entity-shape-v1");
    }
    let parts = [tag, kind.as_str(), parent_anchor, signature_shape];
    proof {
        lemma_utf8_parts(
            parts@,
            seq!["entity-shape-v1"@, kind_name(kind), parent_anchor@, signature_shape@],
        );
    }
    hash_join(&parts)
}

pub fn build_full_hash(kind: EntityKind, signature_hash: &str, body_hash: &str) -> (r: String)
    ensures
        r@ == full_hash_of(kind, signature_hash@, body_hash@),
        r@.len() == 64,
        forall|i: int| 0 <= i < r@.len() ==> is_lower_hex(#[trigger] r@[i]),
{
    let tag = "entity-full-v1";
    proof {
        reveal_strlit("entity-full-v1");
    }
    let parts = [tag, kind.as_str(), signature_hash, body_hash];
    proof {
        lemma_utf8_parts(parts@, seq!["entity-full-v1"@, kind_name(kind), signature_hash@, body_hash@]);
    }
    hash_join(&parts)
}

} // verus!
