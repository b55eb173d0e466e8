//! Text cleaning and pagination for extracted book text.
//!
//! The crate removes viewer-interface artifacts from raw extracted text,
//! normalizes whitespace, and splits the cleaned text into fixed-size,
//! numbered pages, discarding pages whose trimmed content is too short.

use vstd::prelude::*;

mod normalize;
mod paginate;
mod scrub;
mod text;

pub use paginate::Page;
pub use paginate::chunk_texts;
pub use paginate::chunks;
pub use paginate::lemma_chunk_is_slice;
pub use paginate::lemma_chunk_sizes;
pub use paginate::lemma_chunks_cover;
pub use paginate::lemma_select_pages_sound;
pub use paginate::lemma_zero_min_keeps_all;
pub use paginate::page_models;
pub use paginate::paged;
pub use paginate::paginate;
pub use paginate::select_pages;
pub use paginate::trim;
pub use paginate::trim_chars;

pub use normalize::collapse_newlines;
pub use normalize::collapse_spaces;
pub use normalize::lemma_normalize_idempotent;
pub use normalize::normalize_whitespace;
pub use normalize::normalized;
pub use scrub::scrub;
pub use scrub::scrubbed;
pub use scrub::space_sub;
pub use text::is_space_char;

verus! {

/// The default number of characters per page chunk.
pub const DEFAULT_CHUNK_SIZE: usize = 1500;

/// The default minimum number of characters a trimmed page must keep.
pub const DEFAULT_MIN_LENGTH: usize = 50;

/// Raw extracted text after the whole cleaning step: the artifact table
/// applied in order, then whitespace normalized.
pub open spec fn cleaned(raw: Seq<char>) -> Seq<char> {
    normalize::normalized(scrub::scrubbed(raw))
}

/// Strips the known viewer-interface artifacts from `raw` and normalizes
/// its whitespace.  Deterministic and total: an unmatched pattern is a
/// no-op, and pure string processing has no failure mode.
pub fn clean(raw: &str) -> (r: String)
    ensures
        r@ == cleaned(raw@),
{
    let scrubbed_text = scrub::scrub(raw);
    normalize::normalize_whitespace(scrubbed_text.as_str())
}

/// The whole pipeline: cleans `raw`, then cuts the cleaned text into
/// numbered pages of `chunk_size` characters, keeping those whose trimmed
/// text holds at least `min_length` characters.
pub fn process(raw: &str, chunk_size: usize, min_length: usize) -> (pages: Vec<Page>)
    requires
        chunk_size >= 1,
    ensures
        page_models(pages@) == paged(cleaned(raw@), chunk_size as nat, min_length as nat),
        forall|i: int, j: int|
            0 <= i < j < pages@.len() ==> pages@[i].page_number < pages@[j].page_number,
        forall|i: int|
            0 <= i < pages@.len() ==> min_length <= (#[trigger] pages@[i]).text_content@.len(),
{
    let text = clean(raw);
    paginate::paginate(text.as_str(), chunk_size, min_length)
}

} // verus!
