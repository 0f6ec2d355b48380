//! The download URI: how it is kept in flash, and what it names.

use vstd::prelude::*;
use vstd::slice::{slice_subrange, slice_to_vec};
use vstd::utf8::{decode_utf8, decode_utf8_encode_utf8, encode_utf8, valid_utf8};

use crate::flash::{image_pages, padded, programmed, FlashPage, PageView};
use crate::flash::{CONFIG_OFFSET, FLASH_SIZE, PAGE_SIZE, WASM_OFFSET};
use crate::text::datagram_is_text_between_white_space;
use crate::text::{is_utf8, trimmed_utf8, trimmed_utf8_bounds, trimmed_utf8_same_zeros};
use crate::text::{trimmed_utf8_spec, utf8_has_no_ff};

verus! {

/// How much of its page is read to find the URI.
pub const CONFIG_LEN: usize = 256;

/// The port of a URI that names none.
pub const DEFAULT_PORT: u16 = 80;

/// A byte that ends the stored URI: the padding of a written page, or erased flash.
pub open spec fn ends_uri(b: u8) -> bool {
    b == 0 || b == 0xff
}

/// The length of the stored URI. It reaches up to the first byte that ends it; where no
/// byte does, nothing is stored.
pub open spec fn uri_len_spec(config: Seq<u8>) -> int {
    if exists|i: int| 0 <= i < config.len() && ends_uri(#[trigger] config[i]) {
        choose|i: int|
            0 <= i < config.len() && ends_uri(#[trigger] config[i]) && (forall|j: int|
                0 <= j < i ==> !ends_uri(#[trigger] config[j]))
    } else {
        0
    }
}

/// The length of the stored URI.
pub fn uri_len(config: &[u8]) -> (n: usize)
    ensures
        n == uri_len_spec(config@),
        n <= config@.len(),
        forall|j: int| 0 <= j < n ==> !ends_uri(#[trigger] config@[j]),
        0 < n ==> n < config@.len() && ends_uri(config@[n as int]),
{
    let mut i: usize = 0;
    while i < config.len()
        invariant
            i <= config@.len(),
            forall|j: int| 0 <= j < i ==> !ends_uri(#[trigger] config@[j]),
        decreases config@.len() - i,
    {
        if config[i] == 0 || config[i] == 0xff {
            assert(ends_uri(config@[i as int]));
            return i;
        }
        i = i + 1;
    }
    0
}

/// The stored URI, where there is one and it is text.
pub open spec fn stored_uri_spec(config: Seq<u8>) -> Option<Seq<u8>> {
    let uri = config.take(uri_len_spec(config));
    if uri.len() > 0 && valid_utf8(uri) {
        Some(uri)
    } else {
        None
    }
}

/// Reads the stored URI.
pub fn stored_uri(config: &[u8]) -> (r: Option<Vec<u8>>)
    ensures
        match r {
            Some(uri) => stored_uri_spec(config@) == Some(uri@),
            None => stored_uri_spec(config@) is None,
        },
{
    let n: usize = uri_len(config);
    let uri: &[u8] = slice_subrange(config, 0, n);
    assert(uri@ =~= config@.take(n as int));
    if n > 0 && is_utf8(uri) {
        Some(slice_to_vec(uri))
    } else {
        None
    }
}

/// The page that stores the URI which a datagram spells.
pub open spec fn config_page_spec(datagram: Seq<u8>) -> Option<PageView> {
    match trimmed_utf8_spec(datagram) {
        Some(uri) => Some(PageView { offset: CONFIG_OFFSET as int, data: padded(uri) }),
        None => None,
    }
}

/// Makes the page that stores the URI which a datagram spells, without the white space
/// around it. A datagram that is not text is ignored.
pub fn config_page(datagram: &[u8]) -> (r: Option<FlashPage>)
    requires
        datagram@.len() <= PAGE_SIZE,
    ensures
        match r {
            Some(page) => config_page_spec(datagram@) == Some(page@) && page.wf(),
            None => config_page_spec(datagram@) is None,
        },
{
    match trimmed_utf8(datagram) {
        Some(uri) => {
            proof {
                trimmed_utf8_bounds(datagram@);
            }
            let ghost text = uri@;
            let mut data: Vec<u8> = uri;
            data.resize(PAGE_SIZE, 0u8);
            assert(data@ =~= padded(text));
            Some(FlashPage { offset: CONFIG_OFFSET, data })
        },
        None => None,
    }
}

/// What is read from flash to find the URI.
pub open spec fn config_bytes(flash: Seq<u8>) -> Seq<u8> {
    flash.subrange(CONFIG_OFFSET as int, CONFIG_OFFSET + CONFIG_LEN)
}

/// Writing the page of a datagram and reading the URI back from flash gives the text of
/// the datagram, trimmed. This takes a datagram without a byte 0, whose trimmed text is not
/// empty and leaves room for the byte that ends it.
pub proof fn saved_uri_reads_back(flash: Seq<u8>, datagram: Seq<u8>)
    requires
        flash.len() == FLASH_SIZE,
        !datagram.contains(0u8),
        trimmed_utf8_spec(datagram) matches Some(uri) && 0 < uri.len() < CONFIG_LEN,
    ensures
        stored_uri_spec(config_bytes(programmed(flash, config_page_spec(datagram)->0)))
            == trimmed_utf8_spec(datagram),
{
    let uri = trimmed_utf8_spec(datagram)->0;
    let page = config_page_spec(datagram)->0;
    let config = config_bytes(programmed(flash, page));
    trimmed_utf8_bounds(datagram);
    trimmed_utf8_same_zeros(datagram);
    utf8_has_no_ff(uri);
    assert(page.data.len() == PAGE_SIZE);
    assert forall|i: int| 0 <= i < CONFIG_LEN implies config[i] == page.data[i] by {}
    assert forall|i: int| 0 <= i < uri.len() implies config[i] == uri[i] && !ends_uri(config[i]) by {
        assert(uri.contains(uri[i]));
    }
    assert(config[uri.len() as int] == 0);
    assert(ends_uri(config[uri.len() as int]));
    assert(uri_len_spec(config) == uri.len());
    assert(config.take(uri.len() as int) =~= uri);
}

/// A text of `CONFIG_LEN` bytes or more leaves no byte to end it where it is looked for, so
/// nothing is found when it is read back; nor is anything found of an empty text.
pub proof fn unreadable_uri_is_absent(flash: Seq<u8>, datagram: Seq<u8>)
    requires
        flash.len() == FLASH_SIZE,
        !datagram.contains(0u8),
        trimmed_utf8_spec(datagram) matches Some(uri) && (uri.len() == 0 || CONFIG_LEN <= uri.len()
            <= PAGE_SIZE),
    ensures
        stored_uri_spec(config_bytes(programmed(flash, config_page_spec(datagram)->0))) is None,
{
    let uri = trimmed_utf8_spec(datagram)->0;
    let page = config_page_spec(datagram)->0;
    let config = config_bytes(programmed(flash, page));
    assert(page.data.len() == PAGE_SIZE);
    assert forall|i: int| 0 <= i < CONFIG_LEN implies config[i] == page.data[i] by {}
    if uri.len() == 0 {
        assert(ends_uri(config[0]));
        assert(uri_len_spec(config) == 0);
    } else {
        trimmed_utf8_bounds(datagram);
        trimmed_utf8_same_zeros(datagram);
        utf8_has_no_ff(uri);
        assert forall|i: int| 0 <= i < config.len() implies !ends_uri(#[trigger] config[i]) by {
            assert(config[i] == uri[i]);
            assert(uri.contains(uri[i]));
        }
    }
}

/// Storing a URI changes nothing outside its own page; the image behind it stays.
pub proof fn saving_uri_keeps_image(flash: Seq<u8>, datagram: Seq<u8>)
    requires
        flash.len() == FLASH_SIZE,
        datagram.len() <= PAGE_SIZE,
        config_page_spec(datagram) is Some,
    ensures
        ({
            let after = programmed(flash, config_page_spec(datagram)->0);
            &&& after.take(CONFIG_OFFSET as int) == flash.take(CONFIG_OFFSET as int)
            &&& after.skip(WASM_OFFSET as int) == flash.skip(WASM_OFFSET as int)
        }),
{
    trimmed_utf8_bounds(datagram);
    let after = programmed(flash, config_page_spec(datagram)->0);
    assert(after.take(CONFIG_OFFSET as int) =~= flash.take(CONFIG_OFFSET as int));
    assert(after.skip(WASM_OFFSET as int) =~= flash.skip(WASM_OFFSET as int));
}

/// Writing an image changes nothing of the stored URI.
pub proof fn image_keeps_stored_uri(flash: Seq<u8>, image: Seq<u8>)
    requires
        flash.len() == FLASH_SIZE,
        crate::flash::image_fits(image.len() as int),
    ensures
        stored_uri_spec(config_bytes(crate::flash::programmed_all(flash, image_pages(image))))
            == stored_uri_spec(config_bytes(flash)),
{
    crate::flash::image_reads_back(flash, image);
    let after = crate::flash::programmed_all(flash, image_pages(image));
    assert forall|i: int| 0 <= i < WASM_OFFSET implies after[i] == flash[i] by {
        assert(after.take(WASM_OFFSET as int)[i] == flash.take(WASM_OFFSET as int)[i]);
    }
    assert(config_bytes(after) =~= config_bytes(flash));
}

/// The length that is found for a stored URI: behind that many bytes stands a 0 or a 0xff, and
/// none stands before. It is 0 where the first byte is such a byte, or where there is none.
pub proof fn stored_uri_ends_at_first_zero_or_ff(config: Seq<u8>)
    ensures
        ({
            let n = uri_len_spec(config);
            &&& 0 <= n <= config.len()
            &&& forall|j: int| 0 <= j < n ==> config[j] != 0 && config[j] != 0xff
            &&& n > 0 ==> n < config.len() && (config[n] == 0 || config[n] == 0xff)
            &&& n == 0 ==> config.len() == 0 || config[0] == 0 || config[0] == 0xff || !(
            config.contains(0) || config.contains(0xff))
        }),
{
    if exists|i: int| 0 <= i < config.len() && ends_uri(#[trigger] config[i]) {
        let i = choose|i: int| 0 <= i < config.len() && ends_uri(#[trigger] config[i]);
        let n = first_end(config, i);
        assert(ends_uri(config[n]));
        let m = uri_len_spec(config);
        assert(0 <= m < config.len() && ends_uri(config[m]));
        assert forall|j: int| 0 <= j < m implies config[j] != 0 && config[j] != 0xff by {
            assert(!ends_uri(config[j]));
        }
    } else {
        assert(!config.contains(0)) by {
            assert(forall|i: int| 0 <= i < config.len() ==> !ends_uri(#[trigger] config[i]));
        }
        assert(!config.contains(0xff)) by {
            assert(forall|i: int| 0 <= i < config.len() ==> !ends_uri(#[trigger] config[i]));
        }
    }
}

proof fn first_end(config: Seq<u8>, i: int) -> (n: int)
    requires
        0 <= i < config.len(),
        ends_uri(config[i]),
    ensures
        0 <= n <= i,
        ends_uri(config[n]),
        forall|j: int| 0 <= j < n ==> !ends_uri(#[trigger] config[j]),
    decreases i,
{
    if exists|j: int| 0 <= j < i && ends_uri(#[trigger] config[j]) {
        let j = choose|j: int| 0 <= j < i && ends_uri(#[trigger] config[j]);
        first_end(config, j)
    } else {
        i
    }
}

/// A text that is not empty and holds no zero, with a 0 or a 0xff behind it, is what is read,
/// whatever follows.
pub proof fn stored_uri_is_the_text_before_its_end(uri: Seq<u8>, end: u8, rest: Seq<u8>)
    requires
        valid_utf8(uri),
        uri.len() > 0,
        !uri.contains(0),
        end == 0 || end == 0xff,
    ensures
        stored_uri_spec(uri + seq![end] + rest) == Some(uri),
{
    let config = uri + seq![end] + rest;
    utf8_has_no_ff(uri);
    stored_uri_ends_at_first_zero_or_ff(config);
    let n = uri_len_spec(config);
    assert(config[uri.len() as int] == end);
    assert(config.contains(end));
    assert(config[0] == uri[0]);
    assert(uri.contains(uri[0]));
    if 0 < n < uri.len() {
        assert(config[n] == uri[n]);
        assert(uri.contains(uri[n]));
    }
    assert(n == uri.len());
    assert(config.take(n) =~= uri);
}

/// Whatever is read as the URI stands at the front, is text, is not empty, and holds neither a
/// 0 nor a 0xff; one of these follows it.
pub proof fn stored_uri_stands_in_front(config: Seq<u8>)
    ensures
        stored_uri_spec(config) matches Some(uri) ==> {
            &&& valid_utf8(uri)
            &&& 0 < uri.len() < config.len()
            &&& config.take(uri.len() as int) == uri
            &&& config[uri.len() as int] == 0 || config[uri.len() as int] == 0xff
            &&& !uri.contains(0) && !uri.contains(0xff)
        },
{
    stored_uri_ends_at_first_zero_or_ff(config);
}

/// What is stored of a datagram: one page at 0x17f000, with the text of the datagram at its
/// front and zeros behind that. The datagram is white space, that text, and white space, and
/// the text neither begins nor ends with white space. A datagram that is not UTF-8 stores
/// nothing.
pub proof fn stored_page_holds_datagram_without_white_ends(datagram: Seq<u8>)
    requires
        datagram.len() <= 4096,
    ensures
        config_page_spec(datagram) is Some <==> valid_utf8(datagram),
        config_page_spec(datagram) matches Some(page) ==> {
            &&& page.offset == 0x17_f000
            &&& page.data.len() == 4096
            &&& exists|pre: Seq<char>, text: Seq<char>, post: Seq<char>|
                {
                    let white = |c: char|
                        {
                            let n = c as u32;
                            ||| 0x9 <= n <= 0xd
                            ||| n == 0x20
                            ||| n == 0x85
                            ||| n == 0xa0
                            ||| n == 0x1680
                            ||| 0x2000 <= n <= 0x200a
                            ||| n == 0x2028
                            ||| n == 0x2029
                            ||| n == 0x202f
                            ||| n == 0x205f
                            ||| n == 0x3000
                        };
                    let stored = #[trigger] encode_utf8(text);
                    &&& datagram == #[trigger] encode_utf8(pre) + stored + #[trigger] encode_utf8(
                        post,
                    )
                    &&& forall|i: int| 0 <= i < pre.len() ==> white(#[trigger] pre[i])
                    &&& forall|i: int| 0 <= i < post.len() ==> white(#[trigger] post[i])
                    &&& text.len() > 0 ==> !white(text.first()) && !white(text.last())
                    &&& page.data.take(stored.len() as int) == stored
                    &&& forall|i: int| stored.len() <= i < 4096 ==> page.data[i] == 0
                }
        },
{
    datagram_is_text_between_white_space(datagram);
    if valid_utf8(datagram) {
        trimmed_utf8_bounds(datagram);
        let t = trimmed_utf8_spec(datagram)->0;
        let text = decode_utf8(t);
        decode_utf8_encode_utf8(t);
        let page = config_page_spec(datagram)->0;
        assert(page.data.take(t.len() as int) =~= t);
        assert(encode_utf8(text) == t);
    }
}

} // verus!
