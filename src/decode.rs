use vstd::prelude::*;

use crate::error::Error;
use crate::framing::{
    body_items, body_lines, classified, html_marker, lemma_text_body_items, non_blank, raw_lines,
    starts_with,
};
use vstd::utf8::valid_utf8;

verus! {

/// What one decoded line becomes: the model, or a `Json` error that keeps the
/// decoder's message.
pub open spec fn decoded_item<Model>(parsed: Result<Model, String>, item: Result<Model, Error>) -> bool {
    match parsed {
        Ok(m) => item == Ok::<Model, Error>(m),
        Err(msg) => item matches Err(Error::Json(j)) && j@ == msg@,
    }
}

/// `item` is what `decode` makes of `line`: a failed line stays the same
/// error, a text line is decoded.
pub open spec fn decoded_from<Model, F: Fn(&String) -> Result<Model, String>>(
    decode: F,
    line: Result<String, Error>,
    item: Result<Model, Error>,
) -> bool {
    match line {
        Err(e) => item == Err::<Model, Error>(e),
        Ok(s) => exists|parsed: Result<Model, String>|
            decode.ensures((&s,), parsed) && decoded_item(parsed, item),
    }
}

/// `items` are the lines decoded one by one, in order.
pub open spec fn decoded_items<Model, F: Fn(&String) -> Result<Model, String>>(
    decode: F,
    lines: Seq<Result<String, Error>>,
    items: Seq<Result<Model, Error>>,
) -> bool {
    items.len() == lines.len() && forall|j: int|
        0 <= j < lines.len() ==> decoded_from(decode, #[trigger] lines[j], items[j])
}

/// Maps one line of a response to a model with `decode`. A failed line stays
/// the error it was; a decoding failure becomes `Json` for this item alone.
pub fn decode_line<Model, F: Fn(&String) -> Result<Model, String>>(
    line: Result<String, Error>,
    decode: &F,
) -> (item: Result<Model, Error>)
    requires
        forall|s: &String| decode.requires((s,)),
    ensures
        decoded_from(*decode, line, item),
{
    match line {
        Err(e) => Err(e),
        Ok(s) => {
            let parsed = decode(&s);
            let ghost p = parsed;
            let item = match parsed {
                Ok(m) => Ok(m),
                Err(msg) => Err(Error::Json(msg)),
            };
            assert(decoded_item(p, item));
            assert(decode.ensures((&s,), p));
            item
        },
    }
}

/// The typed items of a whole response body: its lines, as `body_lines`
/// gives them, each decoded with `decode`. A line that fails to decode fails
/// alone; the lines after it are still decoded.
pub fn decode_body<Model, F: Fn(&String) -> Result<Model, String>>(body: &[u8], decode: &F) -> (items:
    Vec<Result<Model, Error>>)
    requires
        forall|s: &String| decode.requires((s,)),
    ensures
        exists|lines: Seq<Result<String, Error>>|
            body_items(body@, lines) && decoded_items(*decode, lines, items@),
{
    let mut rest = body_lines(body);
    let ghost lines = rest@;
    let mut items: Vec<Result<Model, Error>> = Vec::new();
    while rest.len() > 0
        invariant
            forall|s: &String| decode.requires((s,)),
            items@.len() + rest@.len() == lines.len(),
            forall|k: int| 0 <= k < rest@.len() ==> #[trigger] rest@[k] == lines[items@.len() + k],
            forall|j: int| 0 <= j < items@.len() ==> decoded_from(*decode, #[trigger] lines[j], items@[j]),
        decreases rest.len(),
    {
        let ghost before = rest@;
        let line = rest.remove(0);
        assert(line == lines[items@.len() as int]);
        assert forall|k: int| 0 <= k < rest@.len() implies #[trigger] rest@[k] == lines[items@.len() + 1 + k] by {
            assert(rest@[k] == before[k + 1]);
        }
        let item = decode_line(line, decode);
        items.push(item);
    }
    assert(decoded_items(*decode, lines, items@));
    items
}

/// A body of two text lines (with any blank lines around them), the first of
/// which decodes and the second does not, gives a success item, then a `Json`
/// failure item: neither is dropped.
pub proof fn lemma_valid_then_malformed<Model, F: Fn(&String) -> Result<Model, String>>(
    decode: F,
    body: Seq<u8>,
    lines: Seq<Result<String, Error>>,
    items: Seq<Result<Model, Error>>,
)
    requires
        body_items(body, lines),
        decoded_items(decode, lines, items),
        non_blank(raw_lines(body)).len() == 2,
        forall|j: int| 0 <= j < raw_lines(body).len() ==> valid_utf8(#[trigger] raw_lines(body)[j]),
        forall|j: int|
            0 <= j < 2 ==> !starts_with(#[trigger] non_blank(raw_lines(body))[j], html_marker()),
        forall|p: Result<Model, String>| #[trigger] decode.ensures((&lines[0]->Ok_0,), p) ==> p is Ok,
        forall|p: Result<Model, String>| #[trigger] decode.ensures((&lines[1]->Ok_0,), p) ==> p is Err,
    ensures
        items.len() == 2,
        items[0] is Ok,
        items[1] matches Err(Error::Json(_)),
{
    lemma_text_body_items(body, lines);
    let nb = non_blank(raw_lines(body));
    assert(classified(nb[0], lines[0]) && valid_utf8(nb[0]));
    assert(classified(nb[1], lines[1]) && valid_utf8(nb[1]));
    assert(decoded_from(decode, lines[0], items[0]));
    assert(decoded_from(decode, lines[1], items[1]));
}

/// A text body whose non-blank lines all decode gives one success item per
/// non-blank line, in their order: item `j` is what `decode` made of the text
/// of non-blank line `j`. Blank lines, wherever and however many, give none.
pub proof fn lemma_valid_lines_decode<Model, F: Fn(&String) -> Result<Model, String>>(
    decode: F,
    body: Seq<u8>,
    lines: Seq<Result<String, Error>>,
    items: Seq<Result<Model, Error>>,
)
    requires
        body_items(body, lines),
        decoded_items(decode, lines, items),
        forall|j: int| 0 <= j < raw_lines(body).len() ==> valid_utf8(#[trigger] raw_lines(body)[j]),
        forall|j: int|
            0 <= j < non_blank(raw_lines(body)).len() ==> !starts_with(
                #[trigger] non_blank(raw_lines(body))[j],
                html_marker(),
            ),
        forall|j: int, p: Result<Model, String>|
            0 <= j < lines.len() && #[trigger] decode.ensures((&lines[j]->Ok_0,), p) ==> p is Ok,
    ensures
        items.len() == non_blank(raw_lines(body)).len(),
        forall|j: int|
            0 <= j < items.len() ==> (#[trigger] items[j] matches Ok(m) && exists|
                p: Result<Model, String>,
            |
                decode.ensures((&lines[j]->Ok_0,), p) && p == Ok::<Model, String>(m)
                && lines[j]->Ok_0@ == vstd::utf8::decode_utf8(non_blank(raw_lines(body))[j])),
{
    lemma_text_body_items(body, lines);
    let nb = non_blank(raw_lines(body));
    assert forall|j: int| 0 <= j < items.len() implies (#[trigger] items[j] matches Ok(m) && exists|
        p: Result<Model, String>,
    |
        decode.ensures((&lines[j]->Ok_0,), p) && p == Ok::<Model, String>(m) && lines[j]->Ok_0@
            == vstd::utf8::decode_utf8(nb[j])) by {
        assert(classified(nb[j], lines[j]) && valid_utf8(nb[j]));
        assert(decoded_from(decode, lines[j], items[j]));
        assert(lines[j] matches Ok(s) && s@ == vstd::utf8::decode_utf8(nb[j]));
    }
}

} // verus!
