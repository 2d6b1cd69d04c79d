//! Reads the prompt of a request: its text, and the pictures in it.

use crate::digest::is_lower_hex;
use crate::encoding::byte_len;
use crate::encoding::lemma_utf8_len_push;
use crate::encoding::utf8_len;
use crate::ids::fresh_uuid;
use crate::seqs::lemma_filter_all;
use crate::seqs::lemma_filter_none;
use crate::seqs::lemma_filter_step;
use crate::text::chars_of;
use crate::text::ends_with_char;
use crate::text::holds;
use crate::text::is_white;
use crate::text::lemma_ends_in;
use crate::text::lemma_holds_between;
use crate::text::lemma_joins;
use crate::text::same;
use crate::text::starts_with;
use crate::text::string_of;
use crate::text::take_chars;
use crate::text::white;
use crate::value::Json;
use crate::value::JsonView;
use crate::value::get_of;
use crate::value::json_view;
use crate::value::str_view;
use crate::value::text_in;
use vstd::prelude::*;
use vstd::string::*;

verus! {

/// The path of a local file, or any other address as it is.
pub open spec fn local_path(uri: Seq<char>) -> Seq<char> {
    if "file://"@.is_prefix_of(uri) {
        uri.skip("file://"@.len() as int)
    } else {
        uri
    }
}

/// A text with a reference to a file at its end, marked once.
pub open spec fn with_reference(sofar: Seq<char>, uri: Seq<char>) -> Seq<char> {
    sofar + (if sofar.len() > 0 && sofar.last() == '@' {
        ""@
    } else {
        "@"@
    }) + local_path(uri)
}

/// A text with another at its end, where there is one.
pub open spec fn with_text(sofar: Seq<char>, more: Option<Seq<char>>) -> Seq<char> {
    match more {
        Some(t) => sofar + t,
        None => sofar,
    }
}

/// A text with a reference to a file at its end, where there is one.
pub open spec fn with_link(sofar: Seq<char>, uri: Option<Seq<char>>) -> Seq<char> {
    match uri {
        Some(u) => with_reference(sofar, u),
        None => sofar,
    }
}

/// What a block adds to a prompt.
pub open spec fn with_block(sofar: Seq<char>, block: JsonView) -> Seq<char> {
    let b = Some(block);
    let kind = text_in(b, "type"@);
    if kind == Some("file"@) || kind == Some("resource_link"@) {
        with_link(sofar, text_in(b, "uri"@))
    } else if kind == Some("resource"@) {
        match text_in(get_of(b, "content"@), "text"@) {
            Some(t) => sofar + t,
            None => with_link(sofar, text_in(b, "uri"@)),
        }
    } else {
        with_text(sofar, text_in(b, "text"@))
    }
}

/// The prompt that blocks make up.
pub open spec fn blocks_text(blocks: Seq<JsonView>) -> Seq<char>
    decreases blocks.len(),
{
    if blocks.len() == 0 {
        seq![]
    } else {
        with_block(blocks_text(blocks.drop_last()), blocks.last())
    }
}

fn append_reference(out: &mut String, uri: &str)
    ensures
        final(out)@ == with_reference(old(out)@, uri@),
{
    if ends_with_char(out.as_str(), '@') {
        out.append("");
    } else {
        out.append("@");
    }
    if starts_with(uri, "file://") {
        let cs = chars_of(uri);
        let n: usize = "file://".unicode_len();
        let path = string_of(&cs, n, cs.len());
        assert(path@ =~= local_path(uri@));
        out.append(path.as_str());
    } else {
        out.append(uri);
    }
}

fn is_kind(kind: Option<&str>, name: &str) -> (r: bool)
    ensures
        r == (str_view(kind) == Some(name@)),
{
    match kind {
        Some(k) => same(k, name),
        None => false,
    }
}

fn append_block(out: &mut String, block: &Json)
    ensures
        final(out)@ == with_block(old(out)@, block@),
{
    let kind = block.get_str("type");
    if is_kind(kind, "file") || is_kind(kind, "resource_link") {
        match block.get_str("uri") {
            Some(u) => append_reference(out, u),
            None => {},
        }
    } else if is_kind(kind, "resource") {
        let content = match block.get("content") {
            Some(c) => c.get_str("text"),
            None => None,
        };
        match content {
            Some(t) => out.append(t),
            None => match block.get_str("uri") {
                Some(u) => append_reference(out, u),
                None => {},
            },
        }
    } else {
        match block.get_str("text") {
            Some(t) => out.append(t),
            None => {},
        }
    }
}

/// The prompt that blocks make up.
pub fn parse_prompt_blocks(blocks: &Vec<Json>) -> (r: String)
    ensures
        r@ == blocks_text(blocks.deep_view()),
{
    let ghost all = blocks.deep_view();
    let mut out = String::new();
    let mut i: usize = 0;
    assert(out@ =~= blocks_text(all.take(0)));
    while i < blocks.len()
        invariant
            i <= blocks@.len(),
            all == blocks.deep_view(),
            out@ == blocks_text(all.take(i as int)),
        decreases blocks@.len() - i,
    {
        proof {
            assert(all.take(i + 1).drop_last() =~= all.take(i as int));
            assert(all.take(i + 1).last() == blocks@[i as int]@);
        }
        append_block(&mut out, &blocks[i]);
        i += 1;
    }
    assert(all.take(i as int) =~= all);
    out
}

/// The prompt that a value stands for: a text, or blocks.
pub open spec fn prompt_text(v: Option<JsonView>) -> Seq<char> {
    match v {
        Some(JsonView::Text(t)) => t,
        Some(JsonView::Array(blocks)) => blocks_text(blocks),
        _ => seq![],
    }
}

/// The prompt that a value stands for.
pub fn parse_prompt(prompt_val: Option<&Json>) -> (r: String)
    ensures
        r@ == prompt_text(json_view(prompt_val)),
{
    match prompt_val {
        Some(v) => match v.as_str() {
            Some(t) => t.to_owned(),
            None => match v.as_array() {
                Some(blocks) => parse_prompt_blocks(blocks),
                None => String::new(),
            },
        },
        None => String::new(),
    }
}

/// The part after the first comma, where there is one.
pub open spec fn past_comma(s: Seq<char>) -> Option<Seq<char>>
    decreases s.len(),
{
    if s.len() == 0 {
        None
    } else if s[0] == ',' {
        Some(s.skip(1))
    } else {
        past_comma(s.skip(1))
    }
}

/// The part after the first comma, or the whole.
pub open spec fn after_comma(s: Seq<char>) -> Seq<char> {
    match past_comma(s) {
        Some(rest) => rest,
        None => s,
    }
}

/// Whether a character of encoded data counts.
pub open spec fn counts() -> spec_fn(char) -> bool {
    |c: char| !is_white(c) && c != '='
}

/// The characters of encoded data, without what may stand in front, between
/// and behind them.
pub open spec fn cleaned(s: Seq<char>) -> Seq<char> {
    after_comma(s).filter(counts())
}

/// Encoded data, filled up to whole groups of four bytes.
pub open spec fn padded(s: Seq<char>) -> Seq<char> {
    let missing = (4 - utf8_len(s) % 4) % 4;
    s + Seq::new(missing as nat, |i: int| '=')
}

fn data_start(cs: &Vec<char>) -> (r: usize)
    ensures
        r <= cs@.len(),
        after_comma(cs@) == cs@.skip(r as int),
{
    let mut i: usize = 0;
    assert(cs@.skip(0) =~= cs@);
    while i < cs.len()
        invariant
            i <= cs@.len(),
            past_comma(cs@) == past_comma(cs@.skip(i as int)),
        decreases cs@.len() - i,
    {
        assert(cs@.skip(i as int)[0] == cs@[i as int]);
        assert(cs@.skip(i as int).skip(1) =~= cs@.skip(i + 1));
        if cs[i] == ',' {
            return i + 1;
        }
        i += 1;
    }
    0
}

/// Encoded data as the decoder takes it.
pub fn base64_input(input: &str) -> (r: String)
    ensures
        r@ == padded(cleaned(input@)),
{
    let cs = chars_of(input);
    let start: usize = data_start(&cs);
    let ghost data = after_comma(input@);
    let mut out = String::new();
    let mut i: usize = start;
    proof {
        lemma_filter_none(data, counts());
    }
    while i < cs.len()
        invariant
            start <= i <= cs@.len(),
            data == cs@.skip(start as int),
            out@ == data.take(i - start).filter(counts()),
        decreases cs@.len() - i,
    {
        proof {
            lemma_filter_step(data, counts(), i - start);
            assert(data[i - start] == cs@[i as int]);
        }
        let c = cs[i];
        if !white(c) && c != '=' {
            out.push(c);
        }
        i += 1;
    }
    assert(data.take(i - start) =~= data);
    let ghost clean = out@;
    let n: usize = byte_len(out.as_str());
    let missing: usize = (4 - n % 4) % 4;
    let mut k: usize = 0;
    assert(out@ =~= clean + Seq::new(0, |i: int| '='));
    while k < missing
        invariant
            k <= missing < 4,
            out@ == clean + Seq::new(k as nat, |i: int| '='),
        decreases missing - k,
    {
        out.push('=');
        assert(out@ =~= clean + Seq::new((k + 1) as nat, |i: int| '='));
        k += 1;
    }
    out
}

/// What the decoder takes is always made of whole groups.
pub proof fn law_padding_completes_groups(s: Seq<char>)
    ensures
        utf8_len(padded(s)) % 4 == 0,
{
    let missing = (4 - utf8_len(s) % 4) % 4;
    lemma_fill_len(s, missing as nat);
}

proof fn lemma_fill_len(s: Seq<char>, n: nat)
    ensures
        utf8_len(s + Seq::new(n, |i: int| '=')) == utf8_len(s) + n,
    decreases n,
{
    if n == 0 {
        assert(s + Seq::new(0, |i: int| '=') =~= s);
    } else {
        let k = (n - 1) as nat;
        lemma_fill_len(s, k);
        assert(s + Seq::new(n, |i: int| '=') =~= (s + Seq::new(k, |i: int| '=')).push('='));
        lemma_utf8_len_push(s + Seq::new(k, |i: int| '='), '=');
    }
}

/// What encoded data decodes to.
pub uninterp spec fn base64_decoded(s: Seq<char>) -> Option<Seq<u8>>;

/// Decodes by `base64::engine::general_purpose::STANDARD`. Claims only that
/// the same text always decodes to the same bytes, or never.
#[verifier::external_body]
fn decode_standard(s: &str) -> (r: Option<Vec<u8>>)
    ensures
        r.deep_view() == base64_decoded(s@),
{
    base64::Engine::decode(&base64::engine::general_purpose::STANDARD, s).ok()
}

/// The bytes of a picture, from text that may name its type in front and leave
/// out its padding.
pub fn base64_decode(input: &str) -> (r: Option<Vec<u8>>)
    ensures
        r.deep_view() == base64_decoded(padded(cleaned(input@))),
{
    let clean = base64_input(input);
    decode_standard(clean.as_str())
}

/// The ending of a file of this type.
pub open spec fn extension(mime: Seq<char>) -> Seq<char> {
    if mime == "image/jpeg"@ || mime == "image/jpg"@ {
        "jpg"@
    } else if mime == "image/webp"@ {
        "webp"@
    } else if mime == "image/gif"@ {
        "gif"@
    } else {
        "png"@
    }
}

/// The ending of a file of this type.
pub fn extension_for(mime: &str) -> (r: &'static str)
    ensures
        r@ == extension(mime@),
{
    if same(mime, "image/jpeg") || same(mime, "image/jpg") {
        "jpg"
    } else if same(mime, "image/webp") {
        "webp"
    } else if same(mime, "image/gif") {
        "gif"
    } else {
        "png"
    }
}

/// The picture of a block: the ending of its file, and its bytes.
pub open spec fn picture(block: JsonView) -> Option<(Seq<char>, Seq<u8>)> {
    let b = Some(block);
    if text_in(b, "type"@) == Some("image"@) {
        match text_in(b, "data"@) {
            Some(data) => match base64_decoded(padded(cleaned(data))) {
                Some(bytes) => Some(
                    (
                        extension(
                            match text_in(b, "mimeType"@) {
                                Some(m) => m,
                                None => "image/png"@,
                            },
                        ),
                        bytes,
                    ),
                ),
                None => None,
            },
            None => None,
        }
    } else {
        None
    }
}

/// A picture that is to be written to a file.
#[derive(Debug, PartialEq, Eq)]
pub struct MediaRequest {
    /// The block that it stands in.
    pub block: usize,
    pub extension: &'static str,
    pub bytes: Vec<u8>,
}

/// What a [`MediaRequest`] says.
#[verifier::ext_equal]
pub struct MediaView {
    pub block: int,
    pub extension: Seq<char>,
    pub bytes: Seq<u8>,
}

impl DeepView for MediaRequest {
    type V = MediaView;

    open spec fn deep_view(&self) -> MediaView {
        MediaView { block: self.block as int, extension: self.extension@, bytes: self.bytes@ }
    }
}

/// The pictures of blocks.
pub open spec fn pictures(blocks: Seq<JsonView>) -> Seq<MediaView>
    decreases blocks.len(),
{
    if blocks.len() == 0 {
        seq![]
    } else {
        let rest = pictures(blocks.drop_last());
        match picture(blocks.last()) {
            Some((extension, bytes)) => rest.push(
                MediaView { block: blocks.len() - 1, extension, bytes },
            ),
            None => rest,
        }
    }
}

/// The blocks of a prompt, where it has any.
pub open spec fn prompt_blocks(v: Option<JsonView>) -> Seq<JsonView> {
    match v {
        Some(JsonView::Array(blocks)) => blocks,
        _ => seq![],
    }
}

/// The pictures that are to be written before the prompt is put together.
pub fn media_requests(prompt_val: Option<&Json>) -> (r: Vec<MediaRequest>)
    ensures
        r.deep_view() == pictures(prompt_blocks(json_view(prompt_val))),
{
    let mut out: Vec<MediaRequest> = Vec::new();
    assert(out.deep_view() =~= seq![]);
    let blocks = match prompt_val {
        Some(v) => match v.as_array() {
            Some(b) => b,
            None => {
                return out;
            },
        },
        None => {
            return out;
        },
    };
    let ghost all = blocks.deep_view();
    let mut i: usize = 0;
    assert(all.take(0) =~= seq![]);
    while i < blocks.len()
        invariant
            i <= blocks@.len(),
            all == blocks.deep_view(),
            out.deep_view() == pictures(all.take(i as int)),
        decreases blocks@.len() - i,
    {
        let block = &blocks[i];
        let ghost sofar = out.deep_view();
        proof {
            assert(all.take(i + 1).drop_last() =~= all.take(i as int));
            assert(all.take(i + 1).last() == block@);
        }
        if is_kind(block.get_str("type"), "image") {
            match block.get_str("data") {
                Some(data) => match base64_decode(data) {
                    Some(bytes) => {
                        let mime = match block.get_str("mimeType") {
                            Some(m) => m,
                            None => "image/png",
                        };
                        let m = MediaRequest { block: i, extension: extension_for(mime), bytes };
                        assert(bytes.deep_view() =~= bytes@);
                        out.push(m);
                        assert(out.deep_view() =~= sofar.push(m.deep_view()));
                    },
                    None => {},
                },
                None => {},
            }
        }
        i += 1;
    }
    assert(all.take(i as int) =~= all);
    out
}

/// The name of the file of a picture.
pub open spec fn media_file(suffix: Seq<char>, extension: Seq<char>) -> Seq<char> {
    "temp_media_"@ + suffix + "."@ + extension
}

/// The name of the file of a picture.
pub fn media_file_name(suffix: &str, extension: &str) -> (r: String)
    ensures
        r@ == media_file(suffix@, extension@),
{
    let mut n = "temp_media_".to_owned();
    n.append(suffix);
    n.append(".");
    n.append(extension);
    n
}

/// A fresh name for the file of a picture: eight hexadecimal digits tell it from
/// others.
pub fn fresh_media_file_name(extension: &str) -> (r: String)
    ensures
        exists|suffix: Seq<char>|
            suffix.len() == 8 && is_lower_hex(suffix) && r@ == #[trigger] media_file(
                suffix,
                extension@,
            ),
{
    let id = fresh_uuid();
    let suffix = take_chars(id.as_str(), 8);
    media_file_name(suffix, extension)
}

/// The path of the file of a picture.
pub open spec fn media_path(name: Seq<char>) -> Seq<char> {
    "/tmp/agy-media/"@ + name
}

/// The path of the file of a picture.
pub fn media_file_path(name: &str) -> (r: String)
    ensures
        r@ == media_path(name@),
{
    let mut p = "/tmp/agy-media/".to_owned();
    p.append(name);
    p
}

/// The file that was written for the picture of a block.
pub open spec fn written_for(written: Seq<Option<Seq<char>>>, block: int) -> Option<Seq<char>> {
    if 0 <= block < written.len() {
        written[block]
    } else {
        None
    }
}

/// A prompt, and the files that it refers to.
pub open spec fn with_pictures(blocks: Seq<JsonView>, written: Seq<Option<Seq<char>>>) -> (
    Seq<char>,
    Seq<Seq<char>>,
)
    decreases blocks.len(),
{
    if blocks.len() == 0 {
        (seq![], seq![])
    } else {
        let (text, files) = with_pictures(blocks.drop_last(), written);
        let block = blocks.last();
        if text_in(Some(block), "type"@) == Some("image"@) {
            match written_for(written, blocks.len() - 1) {
                Some(name) => (
                    text + " !["@ + name + "]("@ + media_path(name) + ") "@,
                    files.push(media_path(name)),
                ),
                None => (text, files),
            }
        } else {
            (with_block(text, block), files)
        }
    }
}

/// The prompt that a value stands for and the files that it refers to, given
/// the name of the file that was written for the picture of each block.
pub fn parse_prompt_and_extract_media(prompt_val: Option<&Json>, written: &Vec<Option<String>>) -> (r:
    (String, Vec<String>))
    ensures
        match json_view(prompt_val) {
            Some(JsonView::Text(t)) => r.0@ == t && r.1@.len() == 0,
            v => {
                let (text, files) = with_pictures(prompt_blocks(v), written.deep_view());
                r.0@ == text && r.1.deep_view() == files
            },
        },
{
    let mut files: Vec<String> = Vec::new();
    let mut out = String::new();
    assert(files.deep_view() =~= seq![]);
    assert(out@ =~= seq![]);
    let blocks = match prompt_val {
        Some(v) => match v.as_str() {
            Some(t) => {
                return (t.to_owned(), files);
            },
            None => match v.as_array() {
                Some(b) => b,
                None => {
                    return (out, files);
                },
            },
        },
        None => {
            return (out, files);
        },
    };
    let ghost all = blocks.deep_view();
    let ghost names = written.deep_view();
    let mut i: usize = 0;
    assert(all.take(0) =~= seq![]);
    while i < blocks.len()
        invariant
            i <= blocks@.len(),
            all == blocks.deep_view(),
            names == written.deep_view(),
            with_pictures(all.take(i as int), names) == (out@, files.deep_view()),
        decreases blocks@.len() - i,
    {
        let block = &blocks[i];
        let ghost sofar = files.deep_view();
        proof {
            assert(all.take(i + 1).drop_last() =~= all.take(i as int));
            assert(all.take(i + 1).last() == block@);
        }
        if is_kind(block.get_str("type"), "image") {
            if i < written.len() {
                match &written[i] {
                    Some(name) => {
                        assert(names[i as int] == Some(name@));
                        let path = media_file_path(name.as_str());
                        out.append(" ![");
                        out.append(name.as_str());
                        out.append("](");
                        out.append(path.as_str());
                        out.append(") ");
                        let ghost p = path@;
                        files.push(path);
                        assert(files.deep_view() =~= sofar.push(p));
                    },
                    None => {
                        assert(names[i as int] is None);
                    },
                }
            }
        } else {
            append_block(&mut out, block);
        }
        i += 1;
    }
    assert(all.take(i as int) =~= all);
    (out, files)
}

/// Without pictures, both ways of reading a prompt agree.
pub proof fn law_text_prompts_read_the_same(
    blocks: Seq<JsonView>,
    written: Seq<Option<Seq<char>>>,
)
    requires
        forall|i: int|
            0 <= i < blocks.len() ==> text_in(Some(#[trigger] blocks[i]), "type"@) != Some(
                "image"@,
            ),
    ensures
        with_pictures(blocks, written) == (blocks_text(blocks), Seq::<Seq<char>>::empty()),
    decreases blocks.len(),
{
    if blocks.len() > 0 {
        assert forall|i: int| 0 <= i < blocks.drop_last().len() implies text_in(
            Some(#[trigger] blocks.drop_last()[i]),
            "type"@,
        ) != Some("image"@) by {
            assert(blocks.drop_last()[i] == blocks[i]);
        }
        law_text_prompts_read_the_same(blocks.drop_last(), written);
        assert(blocks[blocks.len() - 1] == blocks.last());
    }
}

/// A local file is named by its path, and anything else as it is.
pub proof fn law_files_are_named_by_their_path(path: Seq<char>, uri: Seq<char>)
    ensures
        local_path("file://"@ + path) == path,
        !"file://"@.is_prefix_of(uri) ==> local_path(uri) == uri,
{
    let whole = "file://"@ + path;
    assert(whole.subrange(0, "file://"@.len() as int) =~= "file://"@);
    assert(whole.skip("file://"@.len() as int) =~= path);
}

/// A block adds to the end of a prompt and changes nothing before it.
pub proof fn law_blocks_add_to_the_end(blocks: Seq<JsonView>, block: JsonView)
    ensures
        blocks_text(blocks).is_prefix_of(blocks_text(blocks.push(block))),
        blocks_text(blocks.push(block)) == with_block(blocks_text(blocks), block),
        blocks_text(seq![]).len() == 0,
{
    assert(blocks.push(block).drop_last() =~= blocks);
    let (sofar, all) = (blocks_text(blocks), blocks_text(blocks.push(block)));
    assert(all.subrange(0, sofar.len() as int) =~= sofar);
}

/// A text block adds its text, a link its path behind a mark, and a resource
/// its text, or its path where it has no text. A mark that stands there already
/// is not set again.
pub proof fn law_blocks_add_what_they_are(sofar: Seq<char>, block: JsonView, t: Seq<char>)
    ensures
        block.text_of("type"@) == Some("text"@) && block.text_of("text"@) == Some(t) ==> with_block(
            sofar,
            block,
        ) == sofar + t,
        (block.text_of("type"@) == Some("file"@) || block.text_of("type"@) == Some(
            "resource_link"@,
        )) && block.text_of("uri"@) == Some(t) && (sofar.len() == 0 || sofar.last() != '@')
            ==> with_block(sofar, block) == sofar + seq!['@'] + local_path(t),
        (block.text_of("type"@) == Some("file"@) || block.text_of("type"@) == Some(
            "resource_link"@,
        )) && block.text_of("uri"@) == Some(t) && sofar.len() > 0 && sofar.last() == '@'
            ==> with_block(sofar, block) == sofar + local_path(t),
        block.text_of("type"@) == Some("resource"@) && text_in(block.get("content"@), "text"@)
            == Some(t) ==> with_block(sofar, block) == sofar + t,
{
    reveal_strlit("text");
    reveal_strlit("file");
    reveal_strlit("resource_link");
    reveal_strlit("resource");
    reveal_strlit("@");
    reveal_strlit("");
    assert("text"@[0] == 't' && "file"@[0] == 'f');
    assert("resource_link"@.len() == 13 && "resource"@.len() == 8 && "text"@.len() == 4);
    assert("file"@.len() == 4);
    assert("@"@ =~= seq!['@']);
    assert(sofar + ""@ =~= sofar);
}

/// A prompt that is text is that text.
pub proof fn law_plain_prompt_is_itself(t: Seq<char>, blocks: Seq<JsonView>)
    ensures
        prompt_text(Some(JsonView::Text(t))) == t,
        prompt_text(Some(JsonView::Array(blocks))) == blocks_text(blocks),
        prompt_text(None).len() == 0,
{
}

/// What stands before the first comma of encoded data is dropped, and where
/// there is none nothing is.
pub proof fn law_data_starts_behind_the_comma(head: Seq<char>, data: Seq<char>)
    requires
        !head.contains(','),
    ensures
        after_comma(head + seq![','] + data) == data,
        after_comma(head) == head,
    decreases head.len(),
{
    let whole = head + seq![','] + data;
    if head.len() == 0 {
        assert(whole[0] == ',');
        assert(whole.skip(1) =~= data);
    } else {
        assert(head.contains(head[0]));
        assert(whole[0] == head[0]);
        let rest = head.skip(1);
        assert(!rest.contains(',')) by {
            if rest.contains(',') {
                let i = rest.index_of(',');
                assert(head[i + 1] == ',');
            }
        }
        law_data_starts_behind_the_comma(rest, data);
        assert(whole.skip(1) =~= rest + seq![','] + data);
        lemma_comma_found(rest, data);
        lemma_no_comma(rest);
    }
}

proof fn lemma_comma_found(head: Seq<char>, data: Seq<char>)
    ensures
        past_comma(head + seq![','] + data) is Some,
    decreases head.len(),
{
    let whole = head + seq![','] + data;
    if head.len() == 0 {
        assert(whole[0] == ',');
    } else {
        assert(whole.skip(1) =~= head.skip(1) + seq![','] + data);
        lemma_comma_found(head.skip(1), data);
    }
}

proof fn lemma_no_comma(s: Seq<char>)
    requires
        !s.contains(','),
    ensures
        past_comma(s) is None,
    decreases s.len(),
{
    if s.len() > 0 {
        assert(s.contains(s[0]));
        assert(!s.skip(1).contains(',')) by {
            if s.skip(1).contains(',') {
                let i = s.skip(1).index_of(',');
                assert(s[i + 1] == ',');
            }
        }
        lemma_no_comma(s.skip(1));
    }
}

/// Encoded data loses white space and padding and nothing else, and what is
/// filled up is padding at the end, less than a group of it.
pub proof fn law_cleaning_keeps_the_data(s: Seq<char>)
    ensures
        forall|i: int|
            0 <= i < cleaned(s).len() ==> !is_white(#[trigger] cleaned(s)[i]) && cleaned(s)[i]
                != '=',
        (forall|i: int|
            0 <= i < after_comma(s).len() ==> !is_white(#[trigger] after_comma(s)[i])
                && after_comma(s)[i] != '=') ==> cleaned(s) == after_comma(s),
        s.is_prefix_of(padded(s)),
        padded(s).len() < s.len() + 4,
        forall|i: int| s.len() <= i < padded(s).len() ==> #[trigger] padded(s)[i] == '=',
{
    let data = after_comma(s);
    assert forall|i: int| 0 <= i < cleaned(s).len() implies !is_white(#[trigger] cleaned(s)[i])
        && cleaned(s)[i] != '=' by {
        data.lemma_filter_pred(counts(), i);
    }
    if forall|i: int| 0 <= i < data.len() ==> !is_white(#[trigger] data[i]) && data[i] != '=' {
        lemma_filter_all(data, counts());
    }
    assert(padded(s).subrange(0, s.len() as int) =~= s);
}

/// A picture is what its data decodes to, in a file of its own type; a block
/// that is no picture has none.
pub proof fn law_pictures_are_decoded(block: JsonView, data: Seq<char>, bytes: Seq<u8>)
    ensures
        block.text_of("type"@) == Some("image"@) && block.text_of("data"@) == Some(data)
            && base64_decoded(padded(cleaned(data))) == Some(bytes) ==> (picture(
            block,
        ) matches Some((ending, found)) && found == bytes && (block.text_of("mimeType"@) == Some(
            "image/jpeg"@,
        ) ==> ending == "jpg"@) && (block.text_of("mimeType"@) == Some("image/webp"@) ==> ending
            == "webp"@) && (block.text_of("mimeType"@) == Some("image/gif"@) ==> ending == "gif"@)
            && (block.text_of("mimeType"@) == Some("image/png"@) || block.text_of("mimeType"@) is None
            ==> ending == "png"@)),
        block.text_of("type"@) != Some("image"@) ==> picture(block) is None,
        extension("image/jpeg"@) == extension("image/jpg"@),
{
    reveal_strlit("image/jpeg");
    reveal_strlit("image/jpg");
    reveal_strlit("image/webp");
    reveal_strlit("image/gif");
    reveal_strlit("image/png");
    assert("image/jpeg"@[6] == 'j' && "image/webp"@[6] == 'w' && "image/gif"@[6] == 'g');
    assert("image/png"@[6] == 'p' && "image/jpg"@[6] == 'j');
}

/// Every picture of a prompt is written once, under the place of its block, and
/// in the order of the blocks; nothing else is.
pub proof fn law_pictures_follow_the_blocks(blocks: Seq<JsonView>)
    ensures
        forall|i: int|
            0 <= i < pictures(blocks).len() ==> {
                let m = #[trigger] pictures(blocks)[i];
                &&& 0 <= m.block < blocks.len()
                &&& picture(blocks[m.block]) == Some((m.extension, m.bytes))
            },
        forall|i: int, j: int|
            0 <= i < j < pictures(blocks).len() ==> (#[trigger] pictures(blocks)[i]).block < (
            #[trigger] pictures(blocks)[j]).block,
        forall|k: int|
            0 <= k < blocks.len() && picture(#[trigger] blocks[k]) is Some ==> exists|i: int|
                0 <= i < pictures(blocks).len() && (#[trigger] pictures(blocks)[i]).block == k,
    decreases blocks.len(),
{
    if blocks.len() > 0 {
        let front = blocks.drop_last();
        law_pictures_follow_the_blocks(front);
        let (rest, all) = (pictures(front), pictures(blocks));
        let last = blocks.len() - 1;
        assert forall|i: int| 0 <= i < all.len() implies {
            let m = #[trigger] all[i];
            &&& 0 <= m.block < blocks.len()
            &&& picture(blocks[m.block]) == Some((m.extension, m.bytes))
        } by {
            if i < rest.len() {
                assert(all[i] == rest[i]);
                assert(front[rest[i].block] == blocks[rest[i].block]);
            }
        }
        assert forall|i: int, j: int| 0 <= i < j < all.len() implies (#[trigger] all[i]).block < (
        #[trigger] all[j]).block by {
            assert(all[i] == rest[i]);
            if j < rest.len() {
                assert(all[j] == rest[j]);
            }
        }
        assert forall|k: int| 0 <= k < blocks.len() && picture(
            #[trigger] blocks[k],
        ) is Some implies exists|i: int|
            0 <= i < all.len() && (#[trigger] all[i]).block == k by {
            if k < last {
                assert(front[k] == blocks[k]);
                let i = choose|i: int| 0 <= i < rest.len() && (#[trigger] rest[i]).block == k;
                assert(all[i] == rest[i]);
            } else {
                assert(all[rest.len() as int].block == k);
            }
        }
    }
}

/// A picture that was written stands in the prompt under its name and path, and
/// its file is among the files; one that was not adds nothing; and any other
/// block adds what it adds to a prompt without pictures.
pub proof fn law_written_pictures_are_referred_to(
    blocks: Seq<JsonView>,
    block: JsonView,
    written: Seq<Option<Seq<char>>>,
    name: Seq<char>,
)
    ensures
        ({
            let (text, files) = with_pictures(blocks, written);
            let (more, all) = with_pictures(blocks.push(block), written);
            let is_image = block.text_of("type"@) == Some("image"@);
            &&& is_image && written_for(written, blocks.len() as int) == Some(name) ==> all
                == files.push("/tmp/agy-media/"@ + name) && text.is_prefix_of(more) && holds(
                more,
                "!["@ + name + "]("@ + ("/tmp/agy-media/"@ + name) + ")"@,
            )
            &&& is_image && written_for(written, blocks.len() as int) is None ==> (more, all) == (
                text,
                files,
            )
            &&& !is_image ==> all == files && more == with_block(text, block)
        }),
        with_pictures(seq![], written) == (Seq::<char>::empty(), Seq::<Seq<char>>::empty()),
{
    assert(blocks.push(block).drop_last() =~= blocks);
    assert(blocks.push(block).last() == block);
    let (text, files) = with_pictures(blocks, written);
    lemma_picture_reference(text, name, media_path(name));
}

proof fn lemma_picture_reference(text: Seq<char>, name: Seq<char>, path: Seq<char>)
    ensures
        ({
            let more = text + " !["@ + name + "]("@ + path + ") "@;
            &&& text.is_prefix_of(more)
            &&& holds(more, "!["@ + name + "]("@ + path + ")"@)
        }),
{
    reveal_strlit(" ![");
    reveal_strlit("![");
    reveal_strlit(") ");
    reveal_strlit(")");
    let more = text + " !["@ + name + "]("@ + path + ") "@;
    assert(more.subrange(0, text.len() as int) =~= text);
    let told = "!["@ + name + "]("@ + path + ")"@;
    let (a, b) = (" !["@.take(1), ") "@.skip(1));
    assert(" !["@ =~= a + "!["@);
    assert(") "@ =~= ")"@ + b);
    lemma_holds_between(text + a, told, b);
    assert(text + a + told + b =~= more);
}

/// Pictures with different marks have different files, and a file ends as its
/// type demands.
pub proof fn law_files_of_pictures_differ(a: Seq<char>, b: Seq<char>, ending: Seq<char>)
    ensures
        a != b ==> media_file(a, ending) != media_file(b, ending),
        holds(media_file(a, ending), "."@ + ending),
        holds(media_path(media_file(a, ending)), media_file(a, ending)),
{
    let head = "temp_media_"@;
    lemma_joins(head + a, "."@, ending);
    lemma_joins(head + b, "."@, ending);
    lemma_middles_differ(head, a, b, "."@ + ending);
    lemma_ends_in(head + a, "."@ + ending);
    lemma_ends_in("/tmp/agy-media/"@, media_file(a, ending));
}

proof fn lemma_middles_differ(head: Seq<char>, a: Seq<char>, b: Seq<char>, tail: Seq<char>)
    ensures
        a != b ==> head + a + tail != head + b + tail,
{
    let (x, y) = (head + a + tail, head + b + tail);
    if x == y {
        let n = head.len() as int;
        assert(x.len() == y.len());
        assert(x.subrange(n, n + a.len()) =~= a);
        assert(y.subrange(n, n + b.len()) =~= b);
    }
}

/// The blocks of a prompt are all that it lists, and what is no list has none.
pub proof fn law_blocks_are_what_is_listed(blocks: Seq<JsonView>, v: JsonView)
    ensures
        prompt_blocks(Some(JsonView::Array(blocks))) == blocks,
        !(v is Array) ==> prompt_blocks(Some(v)).len() == 0,
        prompt_blocks(None).len() == 0,
{
}

} // verus!
