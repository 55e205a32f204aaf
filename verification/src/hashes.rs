//! Content-addressed fingerprints.
//!
//! Every fingerprint is `blake3:` followed by 64 lowercase hex digits.
//! The digest itself comes from the BLAKE3 library; everything around it —
//! framing, composition, directory listings — is built and verified here.

use vstd::prelude::*;

verus! {

/// The 64 lowercase hex digits of the BLAKE3 digest of a string's UTF-8
/// bytes.  The digest is a function of the characters alone.
pub uninterp spec fn blake3_hex_of(s: Seq<char>) -> Seq<char>;

/// A lowercase hexadecimal digit.
pub open spec fn is_hex_char(c: char) -> bool {
    ('0' <= c && c <= '9') || ('a' <= c && c <= 'f')
}

/// Relies on `blake3::hash` and `blake3::Hash::to_hex`: the digest of the
/// input bytes, rendered as exactly 64 lowercase hexadecimal characters.
#[verifier::external_body]
fn blake3_hex(s: &str) -> (r: String)
    ensures
        r@ == blake3_hex_of(s@),
        r@.len() == 64,
        forall|i: int| 0 <= i < 64 ==> is_hex_char(#[trigger] r@[i]),
{
    blake3::hash(s.as_bytes()).to_hex().as_str().to_owned()
}

/// The full fingerprint text for a string: `blake3:` then the hex digest.
pub open spec fn fingerprint_of(s: Seq<char>) -> Seq<char> {
    "blake3:"@ + blake3_hex_of(s)
}

/// Hash a string; the result is `blake3:` followed by 64 hex characters.
pub fn hash_string(s: &str) -> (r: String)
    ensures
        r@ == fingerprint_of(s@),
        r@.len() == 71,
{
    let mut out = crate::strutil::str_to_string("blake3:");
    let hex = blake3_hex(s);
    out.append(hex.as_str());
    proof {
        reveal_strlit("blake3:");
    }
    out
}

/// The hash input a component list contributes: each component's text
/// followed by one NUL.  Order matters; the composition is not commutative.
pub open spec fn composite_text(parts: Seq<Seq<char>>) -> Seq<char>
    decreases parts.len(),
{
    if parts.len() == 0 {
        Seq::empty()
    } else {
        composite_text(parts.drop_last()) + parts.last() + seq!['\0']
    }
}

/// Compute a composite fingerprint over an ordered list of components.
pub fn composite_hash(components: &Vec<String>) -> (r: String)
    ensures
        r@ == fingerprint_of(composite_text(components@.map_values(|s: String| s@))),
{
    let mut text = String::new();
    let n = components.len();
    let mut i: usize = 0;
    while i < n
        invariant
            n == components.len(),
            i <= n,
            text@ == composite_text(components@.take(i as int).map_values(|s: String| s@)),
        decreases n - i,
    {
        text.append(components[i].as_str());
        text.push('\0');
        proof {
            let all = components@.map_values(|s: String| s@);
            assert(components@.take(i + 1).map_values(|s: String| s@) =~= all.take(i + 1));
            assert(components@.take(i as int).map_values(|s: String| s@) =~= all.take(i as int));
            assert(all.take(i + 1).drop_last() =~= all.take(i as int));
            assert(all.take(i + 1).last() == all[i as int]);
            assert(text@ =~= composite_text(all.take(i + 1)));
        }
        i += 1;
    }
    proof {
        assert(components@.take(n as int) =~= components@);
    }
    hash_string(text.as_str())
}

/// The hash input of a directory listing: for each regular file, in walk
/// order, its relative path, a NUL, its file fingerprint, a newline.
pub open spec fn listing_text(entries: Seq<(Seq<char>, Seq<char>)>) -> Seq<char>
    decreases entries.len(),
{
    if entries.len() == 0 {
        Seq::empty()
    } else {
        listing_text(entries.drop_last()) + entries.last().0 + seq!['\0'] + entries.last().1
            + seq!['\n']
    }
}

/// Fingerprint a directory from its listing of `(relative path, file
/// fingerprint)` pairs.  The listing holds regular files only, in sorted
/// walk order; symbolic links never contribute, so adding or removing one
/// leaves the result unchanged.
pub fn hash_directory_listing(entries: &Vec<(String, String)>) -> (r: String)
    ensures
        r@ == fingerprint_of(
            listing_text(entries@.map_values(|p: (String, String)| (p.0@, p.1@))),
        ),
{
    let mut text = String::new();
    let n = entries.len();
    let mut i: usize = 0;
    while i < n
        invariant
            n == entries.len(),
            i <= n,
            text@ == listing_text(
                entries@.take(i as int).map_values(|p: (String, String)| (p.0@, p.1@)),
            ),
        decreases n - i,
    {
        text.append(entries[i].0.as_str());
        text.push('\0');
        text.append(entries[i].1.as_str());
        text.push('\n');
        proof {
            let all = entries@.map_values(|p: (String, String)| (p.0@, p.1@));
            assert(entries@.take(i + 1).map_values(|p: (String, String)| (p.0@, p.1@)) =~= all.take(
                i + 1,
            ));
            assert(entries@.take(i as int).map_values(|p: (String, String)| (p.0@, p.1@)) =~= all.take(
                i as int,
            ));
            assert(all.take(i + 1).drop_last() =~= all.take(i as int));
            assert(all.take(i + 1).last() == all[i as int]);
            assert(text@ =~= listing_text(all.take(i + 1)));
        }
        i += 1;
    }
    proof {
        assert(entries@.take(n as int) =~= entries@);
    }
    hash_string(text.as_str())
}

} // verus!
