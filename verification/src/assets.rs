//! Static files: their tags, so that browsers revalidate cheaply.

use vstd::prelude::*;

use crate::security::header_text;
use crate::security::Header;
use crate::text::same;
use crate::token::hex_of;
use crate::token::hex_pairs;
use crate::uptime::history::at_most;

verus! {

/// Bytes of a file's hash that its tag shows.
pub const TAG_BYTES: usize = 12;

/// A file's tag: the first bytes of its hash in hex, in quotes.
pub open spec fn tag_of(hash: Seq<u8>) -> Seq<char> {
    seq!['"'] + hex_pairs(at_most(hash, TAG_BYTES as nat)) + seq!['"']
}

/// A file's tag: the first bytes of its hash in hex, in quotes.
pub fn etag(hash: &Vec<u8>) -> (r: String)
    ensures
        r@ == tag_of(hash@),
{
    let mut bytes: Vec<u8> = Vec::new();
    let mut i: usize = 0;
    while i < hash.len() && i < TAG_BYTES
        invariant
            i <= hash@.len(),
            i <= TAG_BYTES,
            bytes@ == hash@.take(i as int),
        decreases hash@.len() - i,
    {
        bytes.push(hash[i]);
        i += 1;
        proof {
            assert(hash@.take(i as int) =~= hash@.take(i as int - 1).push(hash@[i as int - 1]));
        }
    }
    proof {
        assert(bytes@ =~= at_most(hash@, TAG_BYTES as nat));
    }
    let digits = hex_of(&bytes);
    let mut tag = "\"".to_owned();
    tag.append(digits.as_str());
    tag.push('"');
    proof {
        reveal_strlit("\"");
        assert(tag@ =~= tag_of(hash@));
    }
    tag
}

/// Whether the browser already has the file: it names the file's tag.
pub fn is_fresh(if_none_match: &Header, tag: &str) -> (r: bool)
    ensures
        r == (header_text(*if_none_match) == Some(tag@)),
{
    match if_none_match {
        Header::Text(given) => same(given.as_str(), tag),
        _ => false,
    }
}

} // verus!
