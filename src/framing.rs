use vstd::prelude::*;
use vstd::string::StringExecFns;
use vstd::utf8::{decode_utf8, valid_utf8};

use crate::error::Error;

verus! {

/// Drops one carriage return at the end of a line.
pub open spec fn strip_cr(line: Seq<u8>) -> Seq<u8> {
    if line.len() > 0 && line.last() == 13u8 {
        line.drop_last()
    } else {
        line
    }
}

/// The lines that `bytes` completes (each without its line feed and one
/// carriage return before it), and the bytes after the last line feed.
pub open spec fn split_acc(bytes: Seq<u8>) -> (Seq<Seq<u8>>, Seq<u8>)
    decreases bytes.len(),
{
    if bytes.len() == 0 {
        (seq![], seq![])
    } else {
        let (done, cur) = split_acc(bytes.drop_last());
        if bytes.last() == 10u8 {
            (done.push(strip_cr(cur)), seq![])
        } else {
            (done, cur.push(bytes.last()))
        }
    }
}

/// The lines of a body: the completed ones, then the unterminated rest if it
/// is not empty.
pub open spec fn raw_lines(bytes: Seq<u8>) -> Seq<Seq<u8>> {
    let (done, cur) = split_acc(bytes);
    if cur.len() == 0 {
        done
    } else {
        done.push(cur)
    }
}

/// The marker with which an HTML page starts.
pub open spec fn html_marker() -> Seq<u8> {
    seq![60u8, 33, 68, 79, 67, 84, 89, 80, 69, 32, 104, 116, 109, 108, 62]
}

pub open spec fn starts_with(line: Seq<u8>, prefix: Seq<u8>) -> bool {
    prefix.len() <= line.len() && line.subrange(0, prefix.len() as int) == prefix
}

/// A keep-alive line: it carries nothing.
pub open spec fn is_blank(line: Seq<u8>) -> bool {
    line.len() == 0
}

/// What one non-blank line becomes: an I/O error if it is no UTF-8 text,
/// `PageNotFound` if it starts an HTML page, else its text.
pub open spec fn classified(line: Seq<u8>, item: Result<String, Error>) -> bool {
    if !valid_utf8(line) {
        item matches Err(Error::Io(m)) && m@ == "stream did not contain valid UTF-8"@
    } else if starts_with(line, html_marker()) {
        item matches Err(Error::PageNotFound)
    } else {
        item matches Ok(s) && s@ == decode_utf8(line)
    }
}

/// A line after which nothing more is read: it is no UTF-8 text, or it
/// starts an HTML page and no line with content came before it (`started` is
/// false).
pub open spec fn ends_at(line: Seq<u8>, started: bool) -> bool {
    !valid_utf8(line) || (!started && starts_with(line, html_marker()))
}

/// The last of `items` ends the sequence: an I/O error, or an HTML page that
/// is the first item of all.
pub open spec fn ends_sequence(items: Seq<Result<String, Error>>, started: bool) -> bool {
    items.len() > 0 && (items.last() matches Err(Error::Io(_)) || (!started && items.len() == 1
        && items.last() matches Err(Error::PageNotFound)))
}

/// `items` are the items of `lines` from index `i` on, where `started` says
/// whether a line with content came before: blank lines give none, every
/// other line gives one. A line that is no text ends the sequence; so does an
/// HTML page when it is the first line with content. A later line that starts
/// an HTML page gives one `PageNotFound` item, and the lines after it go on.
pub open spec fn items_from(
    lines: Seq<Seq<u8>>,
    i: int,
    started: bool,
    items: Seq<Result<String, Error>>,
) -> bool
    decreases lines.len() - i,
{
    if i < 0 || i >= lines.len() {
        items.len() == 0
    } else if is_blank(lines[i]) {
        items_from(lines, i + 1, started, items)
    } else {
        items.len() > 0 && classified(lines[i], items[0]) && if ends_at(lines[i], started) {
            items.len() == 1
        } else {
            items_from(lines, i + 1, true, items.skip(1))
        }
    }
}

/// The items of a whole response body.
pub open spec fn body_items(body: Seq<u8>, items: Seq<Result<String, Error>>) -> bool {
    items_from(raw_lines(body), 0, false, items)
}

/// Relies on String::from_utf8, which accepts exactly the valid UTF-8 byte
/// sequences and decodes them.
#[verifier::external_body]
fn utf8_text(bytes: Vec<u8>) -> (r: Option<String>)
    ensures
        r is Some <==> valid_utf8(bytes@),
        r matches Some(s) ==> s@ == decode_utf8(bytes@),
{
    String::from_utf8(bytes).ok()
}

/// Turns one line of a response into an item: `None` for a keep-alive line.
pub fn classify_line(line: Vec<u8>) -> (r: Option<Result<String, Error>>)
    ensures
        r is None <==> is_blank(line@),
        r matches Some(item) ==> classified(line@, item),
{
    if line.len() == 0 {
        return None;
    }
    let html = line.len() >= 15 && line[0] == 60u8 && line[1] == 33u8 && line[2] == 68u8
        && line[3] == 79u8 && line[4] == 67u8 && line[5] == 84u8 && line[6] == 89u8 && line[7]
        == 80u8 && line[8] == 69u8 && line[9] == 32u8 && line[10] == 104u8 && line[11] == 116u8
        && line[12] == 109u8 && line[13] == 108u8 && line[14] == 62u8;
    assert(html <==> starts_with(line@, html_marker())) by {
        if line@.len() >= 15 {
            if html {
                assert(line@.subrange(0, 15) =~= html_marker());
            }
            if line@.subrange(0, 15) == html_marker() {
                assert(line@.subrange(0, 15)[14] == line@[14]);
            }
        }
    }
    match utf8_text(line) {
        None => Some(Err(Error::Io(String::from_str("stream did not contain valid UTF-8")))),
        Some(text) => {
            if html {
                Some(Err(Error::PageNotFound))
            } else {
                Some(Ok(text))
            }
        },
    }
}

/// Cuts a body that arrives in chunks into lines.
pub struct LineFramer {
    /// The bytes after the last line feed seen.
    buf: Vec<u8>,
    /// Every byte fed so far.
    fed: Ghost<Seq<u8>>,
    /// Every line handed out so far.
    emitted: Ghost<Seq<Seq<u8>>>,
}

pub open spec fn lines_view(lines: Seq<Vec<u8>>) -> Seq<Seq<u8>> {
    lines.map_values(|l: Vec<u8>| l@)
}

impl LineFramer {
    /// The framer has handed out exactly the lines completed by what it was fed.
    pub closed spec fn wf(&self) -> bool {
        split_acc(self.fed@) == (self.emitted@, self.buf@)
    }

    pub closed spec fn fed(&self) -> Seq<u8> {
        self.fed@
    }

    pub closed spec fn emitted(&self) -> Seq<Seq<u8>> {
        self.emitted@
    }

    pub fn new() -> (r: LineFramer)
        ensures
            r.wf(),
            r.fed() == Seq::<u8>::empty(),
            r.emitted() == Seq::<Seq<u8>>::empty(),
    {
        LineFramer { buf: Vec::new(), fed: Ghost(Seq::empty()), emitted: Ghost(Seq::empty()) }
    }

    /// Takes the next chunk of the body and returns the lines it completes.
    pub fn feed(&mut self, chunk: &[u8]) -> (lines: Vec<Vec<u8>>)
        requires
            old(self).wf(),
        ensures
            final(self).wf(),
            final(self).fed() == old(self).fed() + chunk@,
            split_acc(final(self).fed()).0 == final(self).emitted(),
            final(self).emitted() == old(self).emitted() + lines_view(lines@),
    {
        let mut lines: Vec<Vec<u8>> = Vec::new();
        let ghost start_fed = self.fed@;
        let ghost start_emitted = self.emitted@;
        let mut i: usize = 0;
        while i < chunk.len()
            invariant
                i <= chunk@.len(),
                self.wf(),
                self.fed@ == start_fed + chunk@.subrange(0, i as int),
                self.emitted@ == start_emitted + lines_view(lines@),
            decreases chunk@.len() - i,
        {
            let b = chunk[i];
            let ghost prev_fed = self.fed@;
            proof {
                self.fed@ = prev_fed.push(b);
                assert(self.fed@.drop_last() =~= prev_fed);
                assert(chunk@.subrange(0, i + 1) =~= chunk@.subrange(0, i as int).push(b));
            }
            if b == 10u8 {
                let mut line: Vec<u8> = Vec::new();
                std::mem::swap(&mut line, &mut self.buf);
                let n = line.len();
                if n > 0 && line[n - 1] == 13u8 {
                    line.pop();
                }
                lines.push(line);
                proof {
                    self.emitted@ = self.emitted@.push(line@);
                    assert(lines_view(lines@) =~= lines_view(lines@.drop_last()).push(line@));
                    assert(self.emitted@ =~= start_emitted + lines_view(lines@));
                }
            } else {
                self.buf.push(b);
            }
            i = i + 1;
        }
        assert(chunk@.subrange(0, chunk@.len() as int) =~= chunk@);
        lines
    }

    /// Ends the body: returns the unterminated last line, if it has any byte.
    pub fn finish(&mut self) -> (last: Option<Vec<u8>>)
        requires
            old(self).wf(),
        ensures
            final(self).fed() == old(self).fed(),
            final(self).emitted() == old(self).emitted(),
            old(self).emitted() + match last {
                Some(l) => seq![l@],
                None => Seq::<Seq<u8>>::empty(),
            } == raw_lines(old(self).fed()),
    {
        if self.buf.len() == 0 {
            assert(old(self).emitted() + Seq::<Seq<u8>>::empty() =~= old(self).emitted());
            None
        } else {
            let mut rest: Vec<u8> = Vec::new();
            std::mem::swap(&mut rest, &mut self.buf);
            assert(old(self).emitted() + seq![rest@] =~= old(self).emitted().push(rest@));
            Some(rest)
        }
    }
}

/// The items of a whole response body, in order: one per line that is not
/// blank, up to and including the first line that is no UTF-8 text or starts
/// an HTML page.
pub fn body_lines(body: &[u8]) -> (items: Vec<Result<String, Error>>)
    ensures
        body_items(body@, items@),
{
    let mut framer = LineFramer::new();
    let mut lines = framer.feed(body);
    proof {
        assert(Seq::<u8>::empty() + body@ =~= body@);
        assert(Seq::<Seq<u8>>::empty() + lines_view(lines@) =~= lines_view(lines@));
    }
    let last = framer.finish();
    match last {
        Some(l) => {
            lines.push(l);
            assert(lines_view(lines@) =~= lines_view(lines@.drop_last()).push(l@));
        },
        None => {},
    }
    assert(lines_view(lines@) == raw_lines(body@));
    let (items, _) = line_items(lines, false);
    items
}

/// The items of a run of lines, in order, and whether the last of them ends
/// the sequence (a line that is no UTF-8 text, or an HTML page as the first
/// line with content; the lines after it give none). `started` says whether
/// lines with content came before this run.
pub fn line_items(lines: Vec<Vec<u8>>, started: bool) -> (r: (Vec<Result<String, Error>>, bool))
    ensures
        items_from(lines_view(lines@), 0, started, r.0@),
        r.1 <==> ends_sequence(r.0@, started),
{
    let ghost all = lines_view(lines@);
    let mut items: Vec<Result<String, Error>> = Vec::new();
    let mut rest = lines;
    let mut i: usize = 0;
    let n = rest.len();
    let ghost mut cur = started;
    while i < n
        invariant
            n == all.len(),
            all == lines_view(lines@),
            !ends_sequence(items@, started),
            i <= n,
            rest@.len() == n - i,
            forall|k: int| 0 <= k < rest@.len() ==> #[trigger] rest@[k]@ == all[i + k],
            cur == (started || items@.len() > 0),
            forall|tail: Seq<Result<String, Error>>| #[trigger]
                items_from(all, i as int, cur, tail) ==> items_from(
                    all,
                    0,
                    started,
                    items@ + tail,
                ),
        decreases n - i,
    {
        let ghost before_rest = rest@;
        let line = rest.remove(0);
        assert(line@ == all[i as int]);
        assert forall|k: int| 0 <= k < rest@.len() implies #[trigger] rest@[k]@ == all[i + 1 + k] by {
            assert(rest@[k] == before_rest[k + 1]);
        }
        match classify_line(line) {
            None => {
                assert forall|tail: Seq<Result<String, Error>>| #[trigger]
                    items_from(all, i + 1, cur, tail) implies items_from(
                    all,
                    0,
                    started,
                    items@ + tail,
                ) by {
                    assert(items_from(all, i as int, cur, tail));
                }
            },
            Some(item) => {
                let stop = match &item {
                    Err(Error::Io(_)) => true,
                    Err(Error::PageNotFound) => !started && items.len() == 0,
                    _ => false,
                };
                let ghost before = items@;
                items.push(item);
                assert(items@.last() == item);
                if stop {
                    assert(ends_at(all[i as int], cur));
                    assert(seq![item].skip(1) =~= Seq::<Result<String, Error>>::empty());
                    assert(items_from(all, i as int, cur, seq![item]));
                    assert(items_from(all, 0, started, before + seq![item]));
                    assert(before + seq![item] =~= items@);
                    return (items, true);
                }
                assert(!ends_at(all[i as int], cur));
                assert forall|tail: Seq<Result<String, Error>>| #[trigger]
                    items_from(all, i + 1, true, tail) implies items_from(
                    all,
                    0,
                    started,
                    items@ + tail,
                ) by {
                    let t2 = seq![item] + tail;
                    assert(t2.skip(1) =~= tail);
                    assert(t2[0] == item);
                    assert(items_from(all, i as int, cur, t2));
                    assert(before + t2 =~= items@ + tail);
                }
                proof {
                    cur = true;
                }
            },
        }
        i = i + 1;
    }
    assert(items@ + Seq::<Result<String, Error>>::empty() =~= items@);
    assert(items_from(all, n as int, cur, Seq::<Result<String, Error>>::empty()));
    (items, false)
}

/// The lines of `lines` that are not blank, in order.
pub open spec fn non_blank(lines: Seq<Seq<u8>>) -> Seq<Seq<u8>>
    decreases lines.len(),
{
    if lines.len() == 0 {
        seq![]
    } else if is_blank(lines[0]) {
        non_blank(lines.skip(1))
    } else {
        seq![lines[0]] + non_blank(lines.skip(1))
    }
}

proof fn lemma_items_shift(
    lines: Seq<Seq<u8>>,
    i: int,
    started: bool,
    items: Seq<Result<String, Error>>,
)
    requires
        0 <= i <= lines.len(),
    ensures
        items_from(lines, i, started, items) == items_from(lines.skip(i), 0, started, items),
    decreases lines.len() - i,
{
    if i < lines.len() {
        let tail = lines.skip(i);
        assert(tail[0] == lines[i]);
        assert(tail.skip(1) =~= lines.skip(i + 1));
        lemma_items_shift(lines, i + 1, started, items);
        lemma_items_shift(lines, i + 1, true, items.skip(1));
        lemma_items_shift(tail, 1, started, items);
        lemma_items_shift(tail, 1, true, items.skip(1));
    } else {
        assert(lines.skip(i).len() == 0);
    }
}

/// Blank lines have no part in the items: lines give the same items as their
/// non-blank lines alone, wherever and however many blank lines they hold.
pub proof fn lemma_blank_lines_ignored(
    lines: Seq<Seq<u8>>,
    started: bool,
    items: Seq<Result<String, Error>>,
)
    ensures
        items_from(lines, 0, started, items) == items_from(non_blank(lines), 0, started, items),
    decreases lines.len(),
{
    if lines.len() > 0 {
        let rest = lines.skip(1);
        lemma_items_shift(lines, 1, started, items);
        lemma_items_shift(lines, 1, true, items.skip(1));
        lemma_blank_lines_ignored(rest, started, items);
        lemma_blank_lines_ignored(rest, true, items.skip(1));
        if !is_blank(lines[0]) {
            let nb = non_blank(lines);
            assert(nb[0] == lines[0]);
            assert(nb.skip(1) =~= non_blank(rest));
            lemma_items_shift(nb, 1, true, items.skip(1));
        }
    }
}

/// The same law stated of response bodies.
pub proof fn lemma_body_blank_lines_ignored(body: Seq<u8>, items: Seq<Result<String, Error>>)
    ensures
        body_items(body, items) == items_from(non_blank(raw_lines(body)), 0, false, items),
{
    lemma_blank_lines_ignored(raw_lines(body), false, items);
}

/// Non-blank lines of text whose first line (before which nothing came) is no
/// HTML page give one item each, in their order: each line's own
/// classification, so `PageNotFound` for a later HTML line and the line's
/// text otherwise.
pub proof fn lemma_text_lines_items(
    lines: Seq<Seq<u8>>,
    started: bool,
    items: Seq<Result<String, Error>>,
)
    requires
        items_from(lines, 0, started, items),
        forall|j: int|
            0 <= j < lines.len() ==> !is_blank(#[trigger] lines[j]) && valid_utf8(lines[j]),
        !started && lines.len() > 0 ==> !starts_with(lines[0], html_marker()),
    ensures
        items.len() == lines.len(),
        forall|j: int| 0 <= j < items.len() ==> classified(lines[j], #[trigger] items[j]),
    decreases lines.len(),
{
    if lines.len() > 0 {
        let rest = lines.skip(1);
        lemma_items_shift(lines, 1, true, items.skip(1));
        assert forall|j: int|
            0 <= j < rest.len() implies !is_blank(#[trigger] rest[j]) && valid_utf8(rest[j]) by {
            assert(rest[j] == lines[j + 1]);
        }
        assert(!ends_at(lines[0], started));
        lemma_text_lines_items(rest, true, items.skip(1));
        assert forall|j: int| 0 <= j < items.len() implies classified(lines[j], #[trigger] items[j]) by {
            if j > 0 {
                assert(items[j] == items.skip(1)[j - 1]);
                assert(rest[j - 1] == lines[j]);
            }
        }
    }
}

proof fn lemma_non_blank_valid(lines: Seq<Seq<u8>>)
    requires
        forall|j: int| 0 <= j < lines.len() ==> valid_utf8(#[trigger] lines[j]),
    ensures
        forall|j: int|
            0 <= j < non_blank(lines).len() ==> !is_blank(#[trigger] non_blank(lines)[j])
                && valid_utf8(non_blank(lines)[j]),
    decreases lines.len(),
{
    if lines.len() > 0 {
        let rest = lines.skip(1);
        assert forall|j: int| 0 <= j < rest.len() implies valid_utf8(#[trigger] rest[j]) by {
            assert(rest[j] == lines[j + 1]);
        }
        lemma_non_blank_valid(rest);
        if !is_blank(lines[0]) {
            let nb = non_blank(lines);
            assert forall|j: int| 0 <= j < nb.len() implies !is_blank(#[trigger] nb[j])
                && valid_utf8(nb[j]) by {
                if j > 0 {
                    assert(nb[j] == non_blank(rest)[j - 1]);
                }
            }
        }
    }
}

/// A body that is UTF-8 text and does not open with an HTML page gives one
/// item per line that is not blank, in order: `PageNotFound` for a line that
/// starts an HTML page, the line's text for any other. Blank lines, wherever
/// and however many, give none.
pub proof fn lemma_text_body_items(body: Seq<u8>, items: Seq<Result<String, Error>>)
    requires
        body_items(body, items),
        forall|j: int| 0 <= j < raw_lines(body).len() ==> valid_utf8(#[trigger] raw_lines(body)[j]),
        non_blank(raw_lines(body)).len() > 0 ==> !starts_with(
            non_blank(raw_lines(body))[0],
            html_marker(),
        ),
    ensures
        items.len() == non_blank(raw_lines(body)).len(),
        forall|j: int|
            0 <= j < items.len() ==> classified(non_blank(raw_lines(body))[j], #[trigger] items[j]),
        forall|j: int|
            0 <= j < non_blank(raw_lines(body)).len() ==> !is_blank(
                #[trigger] non_blank(raw_lines(body))[j],
            ) && valid_utf8(non_blank(raw_lines(body))[j]),
{
    let lines = raw_lines(body);
    lemma_blank_lines_ignored(lines, false, items);
    lemma_non_blank_valid(lines);
    lemma_text_lines_items(non_blank(lines), false, items);
}

/// A body made of blank lines alone has no item.
pub proof fn lemma_blank_body_empty(body: Seq<u8>, items: Seq<Result<String, Error>>)
    requires
        body_items(body, items),
        forall|j: int| 0 <= j < raw_lines(body).len() ==> is_blank(#[trigger] raw_lines(body)[j]),
    ensures
        items.len() == 0,
{
    let lines = raw_lines(body);
    lemma_blank_lines_ignored(lines, false, items);
    lemma_non_blank_of_blanks(lines);
}

proof fn lemma_non_blank_of_blanks(lines: Seq<Seq<u8>>)
    requires
        forall|j: int| 0 <= j < lines.len() ==> is_blank(#[trigger] lines[j]),
    ensures
        non_blank(lines).len() == 0,
    decreases lines.len(),
{
    if lines.len() > 0 {
        let rest = lines.skip(1);
        assert forall|j: int| 0 <= j < rest.len() implies is_blank(#[trigger] rest[j]) by {
            assert(rest[j] == lines[j + 1]);
        }
        assert(is_blank(lines[0]));
        lemma_non_blank_of_blanks(rest);
    }
}


proof fn lemma_first_line_keeps_prefix(bytes: Seq<u8>)
    requires
        starts_with(bytes, html_marker()),
    ensures
        raw_lines(bytes).len() > 0,
        starts_with(raw_lines(bytes)[0], html_marker()),
    decreases bytes.len(),
{
    let m = html_marker();
    if bytes.len() == m.len() {
        assert(bytes.subrange(0, 15) =~= bytes);
        lemma_no_line_feed(bytes);
    } else {
        let prev = bytes.drop_last();
        assert(prev.subrange(0, 15) =~= bytes.subrange(0, 15));
        lemma_first_line_keeps_prefix(prev);
        let (d, c) = split_acc(prev);
        if d.len() == 0 {
            let l = c;
            assert(raw_lines(prev) == seq![c]);
            if bytes.last() == 10u8 {
                assert(l.subrange(0, 15) == m);
                if l.len() > 15 {
                    assert(strip_cr(l).subrange(0, 15) =~= l.subrange(0, 15));
                } else {
                    assert(l[14] == m[14]);
                }
            } else {
                assert(c.push(bytes.last()).subrange(0, 15) =~= c.subrange(0, 15));
            }
        } else {
            assert(raw_lines(prev)[0] == d[0]);
        }
    }
}


proof fn lemma_no_line_feed(bytes: Seq<u8>)
    requires
        forall|j: int| 0 <= j < bytes.len() ==> #[trigger] bytes[j] != 10u8,
    ensures
        split_acc(bytes) == (Seq::<Seq<u8>>::empty(), bytes),
    decreases bytes.len(),
{
    if bytes.len() > 0 {
        let prev = bytes.drop_last();
        assert forall|j: int| 0 <= j < prev.len() implies #[trigger] prev[j] != 10u8 by {
            assert(prev[j] == bytes[j]);
        }
        lemma_no_line_feed(prev);
        assert(prev.push(bytes.last()) =~= bytes);
    }
}


/// A body that starts as an HTML page gives one item, `PageNotFound`, however
/// many lines the page has. (A first line that is no UTF-8 text gives an I/O
/// error instead.)
pub proof fn lemma_html_body_not_found(body: Seq<u8>, items: Seq<Result<String, Error>>)
    requires
        body_items(body, items),
        starts_with(body, html_marker()),
        valid_utf8(raw_lines(body)[0]),
    ensures
        items.len() == 1,
        items[0] matches Err(Error::PageNotFound),
{
    lemma_first_line_keeps_prefix(body);
    let lines = raw_lines(body);
    assert(!is_blank(lines[0]));
    assert(ends_at(lines[0], false));
}

proof fn lemma_no_empty_text_from(
    lines: Seq<Seq<u8>>,
    i: int,
    started: bool,
    items: Seq<Result<String, Error>>,
)
    requires
        0 <= i,
        items_from(lines, i, started, items),
    ensures
        forall|j: int|
            0 <= j < items.len() ==> (#[trigger] items[j] matches Ok(t) ==> t@.len() > 0),
    decreases lines.len() - i,
{
    if i < lines.len() {
        if is_blank(lines[i]) {
            lemma_no_empty_text_from(lines, i + 1, started, items);
        } else {
            let line = lines[i];
            if valid_utf8(line) {
                assert(decode_utf8(line).len() > 0);
            }
            if !ends_at(line, started) {
                lemma_no_empty_text_from(lines, i + 1, true, items.skip(1));
                assert forall|j: int| 0 < j < items.len() implies items[j] == items.skip(1)[j
                    - 1] by {}
            }
        }
    }
}

/// No item is an empty text: blank keep-alive lines never come out.
pub proof fn lemma_no_empty_text_item(body: Seq<u8>, items: Seq<Result<String, Error>>)
    requires
        body_items(body, items),
    ensures
        forall|j: int|
            0 <= j < items.len() ==> (#[trigger] items[j] matches Ok(t) ==> t@.len() > 0),
{
    lemma_no_empty_text_from(raw_lines(body), 0, false, items);
}

/// Bytes `head` that end at a line boundary cut the same lines in front of
/// whatever follows.
proof fn lemma_split_after_boundary(head: Seq<u8>, rest: Seq<u8>)
    requires
        split_acc(head).1.len() == 0,
    ensures
        split_acc(head + rest) == (split_acc(head).0 + split_acc(rest).0, split_acc(rest).1),
    decreases rest.len(),
{
    if rest.len() == 0 {
        assert(head + rest =~= head);
        assert(split_acc(head).0 + Seq::<Seq<u8>>::empty() =~= split_acc(head).0);
        assert(split_acc(head).1 =~= Seq::<u8>::empty());
    } else {
        let prev = rest.drop_last();
        lemma_split_after_boundary(head, prev);
        assert((head + rest).drop_last() =~= head + prev);
        assert((head + rest).last() == rest.last());
        let (d, c) = split_acc(prev);
        assert((split_acc(head).0 + d).push(strip_cr(c)) =~= split_acc(head).0 + d.push(
            strip_cr(c),
        ));
    }
}


proof fn lemma_raw_lines_after_boundary(head: Seq<u8>, rest: Seq<u8>)
    requires
        split_acc(head).1.len() == 0,
    ensures
        raw_lines(head + rest) == split_acc(head).0 + raw_lines(rest),
{
    lemma_split_after_boundary(head, rest);
    let (d, c) = split_acc(rest);
    if c.len() > 0 {
        assert((split_acc(head).0 + d).push(c) =~= split_acc(head).0 + d.push(c));
    }
}


proof fn lemma_non_blank_concat(a: Seq<Seq<u8>>, b: Seq<Seq<u8>>)
    ensures
        non_blank(a + b) == non_blank(a) + non_blank(b),
    decreases a.len(),
{
    if a.len() == 0 {
        assert(a + b =~= b);
        assert(Seq::<Seq<u8>>::empty() + non_blank(b) =~= non_blank(b));
    } else {
        assert((a + b)[0] == a[0]);
        assert((a + b).skip(1) =~= a.skip(1) + b);
        lemma_non_blank_concat(a.skip(1), b);
        if !is_blank(a[0]) {
            assert(seq![a[0]] + (non_blank(a.skip(1)) + non_blank(b)) =~= (seq![a[0]]
                + non_blank(a.skip(1))) + non_blank(b));
        }
    }
}


/// Blank lines put into a body at a line boundary (its start, between two
/// lines, or after a last line feed) change none of its items. `blank` is any
/// run of blank lines, such as `\n`, `\r\n` or several of them.
pub proof fn lemma_inserted_blank_lines(
    head: Seq<u8>,
    blank: Seq<u8>,
    tail: Seq<u8>,
    items: Seq<Result<String, Error>>,
)
    requires
        split_acc(head).1.len() == 0,
        split_acc(blank).1.len() == 0,
        forall|j: int| 0 <= j < split_acc(blank).0.len() ==> is_blank(#[trigger] split_acc(blank).0[j]),
    ensures
        body_items(head + tail, items) == body_items(head + blank + tail, items),
{
    let d = split_acc(head).0;
    let b = split_acc(blank).0;
    lemma_raw_lines_after_boundary(head, tail);
    lemma_split_after_boundary(head, blank);
    assert(split_acc(head + blank).1.len() == 0);
    lemma_raw_lines_after_boundary(head + blank, tail);
    lemma_non_blank_concat(d, raw_lines(tail));
    lemma_non_blank_concat(d + b, raw_lines(tail));
    lemma_non_blank_concat(d, b);
    lemma_non_blank_of_blanks(b);
    assert(non_blank(b) =~= Seq::<Seq<u8>>::empty());
    assert(non_blank(d) + non_blank(b) =~= non_blank(d));
    lemma_blank_lines_ignored(raw_lines(head + tail), false, items);
    lemma_blank_lines_ignored(raw_lines(head + blank + tail), false, items);
}

/// Items of two runs of lines join when the first run does not end the sequence.
proof fn lemma_items_concat(
    l1: Seq<Seq<u8>>,
    l2: Seq<Seq<u8>>,
    started: bool,
    i1: Seq<Result<String, Error>>,
    i2: Seq<Result<String, Error>>,
)
    requires
        items_from(l1, 0, started, i1),
        items_from(l2, 0, started || i1.len() > 0, i2),
        !ends_sequence(i1, started),
    ensures
        items_from(l1 + l2, 0, started, i1 + i2),
    decreases l1.len(),
{
    let l = l1 + l2;
    if l1.len() == 0 {
        assert(l =~= l2);
        assert(i1 + i2 =~= i2);
    } else {
        assert(l[0] == l1[0]);
        assert(l.skip(1) =~= l1.skip(1) + l2);
        if is_blank(l1[0]) {
            lemma_items_shift(l1, 1, started, i1);
            lemma_items_concat(l1.skip(1), l2, started, i1, i2);
            lemma_items_shift(l, 1, started, i1 + i2);
        } else {
            let t1 = i1.skip(1);
            assert(!ends_at(l1[0], started));
            lemma_items_shift(l1, 1, true, t1);
            if t1.len() > 0 {
                assert(t1.last() == i1.last());
            }
            lemma_items_concat(l1.skip(1), l2, true, t1, i2);
            assert((i1 + i2).skip(1) =~= t1 + i2);
            assert((i1 + i2)[0] == i1[0]);
            lemma_items_shift(l, 1, true, t1 + i2);
        }
    }
}

/// Once the items of a run of lines end the sequence, later lines add none.
proof fn lemma_items_stop(
    l1: Seq<Seq<u8>>,
    l2: Seq<Seq<u8>>,
    started: bool,
    i1: Seq<Result<String, Error>>,
)
    requires
        items_from(l1, 0, started, i1),
        ends_sequence(i1, started),
    ensures
        items_from(l1 + l2, 0, started, i1),
    decreases l1.len(),
{
    let l = l1 + l2;
    assert(l1.len() > 0);
    assert(l[0] == l1[0]);
    assert(l.skip(1) =~= l1.skip(1) + l2);
    if is_blank(l1[0]) {
        lemma_items_shift(l1, 1, started, i1);
        lemma_items_stop(l1.skip(1), l2, started, i1);
        lemma_items_shift(l, 1, started, i1);
    } else if !ends_at(l1[0], started) {
        let t1 = i1.skip(1);
        lemma_items_shift(l1, 1, true, t1);
        assert(t1.len() > 0);
        assert(t1.last() == i1.last());
        lemma_items_stop(l1.skip(1), l2, true, t1);
        lemma_items_shift(l, 1, true, t1);
    }
}

/// The state of a response body that is read chunk by chunk: the lines cut so
/// far and whether an item has ended the sequence.
pub struct ResponseLines {
    framer: LineFramer,
    ended: bool,
    /// Whether an item has been handed out.
    started: bool,
    /// Every item handed out so far.
    items: Ghost<Seq<Result<String, Error>>>,
}

impl ResponseLines {
    pub closed spec fn wf(&self) -> bool {
        &&& self.framer.wf()
        &&& items_from(self.framer.emitted(), 0, false, self.items@)
        &&& self.ended == ends_sequence(self.items@, false)
        &&& self.started == (self.items@.len() > 0)
    }

    /// The bytes of the body read so far.
    pub closed spec fn received(&self) -> Seq<u8> {
        self.framer.fed()
    }

    /// The items handed out so far.
    pub closed spec fn items(&self) -> Seq<Result<String, Error>> {
        self.items@
    }

    pub closed spec fn ended(&self) -> bool {
        self.ended
    }

    pub fn new() -> (r: ResponseLines)
        ensures
            r.wf(),
            r.received() == Seq::<u8>::empty(),
            r.items() == Seq::<Result<String, Error>>::empty(),
            !r.ended(),
    {
        ResponseLines {
            framer: LineFramer::new(),
            ended: false,
            started: false,
            items: Ghost(Seq::empty()),
        }
    }

    /// Whether an item has ended the sequence, so that nothing more is read.
    pub fn is_ended(&self) -> (r: bool)
        ensures
            r == self.ended(),
    {
        self.ended
    }

    /// Takes the next chunk of the body and returns the items it completes.
    /// Once the sequence has ended, chunks give nothing.
    pub fn on_chunk(&mut self, chunk: &[u8]) -> (out: Vec<Result<String, Error>>)
        requires
            old(self).wf(),
        ensures
            final(self).wf(),
            final(self).items() == old(self).items() + out@,
            old(self).ended() ==> out@.len() == 0 && final(self).ended(),
            !old(self).ended() ==> final(self).received() == old(self).received() + chunk@,
            final(self).ended() == ends_sequence(final(self).items(), false),
            items_from(split_acc(final(self).received()).0, 0, false, final(self).items()),
    {
        if self.ended {
            assert(self.items@ + Seq::<Result<String, Error>>::empty() =~= self.items@);
            return Vec::new();
        }
        let ghost old_emitted = self.framer.emitted();
        let lines = self.framer.feed(chunk);
        let ghost new_lines = lines_view(lines@);
        let (out, ended) = line_items(lines, self.started);
        proof {
            lemma_items_concat(old_emitted, new_lines, false, self.items@, out@);
            self.items@ = self.items@ + out@;
            if out@.len() > 0 {
                assert(self.items@.last() == out@.last());
            } else {
                assert(self.items@ =~= old(self).items@);
            }
        }
        self.ended = ended;
        self.started = self.started || out.len() > 0;
        out
    }

    /// A read of the body failed: the failure is the last item, and the state
    /// is used up, so that nothing more is read.
    pub fn on_failure(self, message: String) -> (r: Result<String, Error>)
        ensures
            r matches Err(Error::Io(m)) && m@ == message@,
    {
        Err(Error::Io(message))
    }

    /// Ends the body and returns the items of its unterminated last line.
    /// The items handed out over the whole body are then exactly those of the
    /// body read at once.
    pub fn on_end(&mut self) -> (out: Vec<Result<String, Error>>)
        requires
            old(self).wf(),
        ensures
            final(self).items() == old(self).items() + out@,
            final(self).received() == old(self).received(),
            body_items(final(self).received(), final(self).items()),
    {
        let ghost emitted = self.framer.emitted();
        let ghost fed = self.framer.fed();
        let last = self.framer.finish();
        let mut lines: Vec<Vec<u8>> = Vec::new();
        match last {
            Some(l) => {
                lines.push(l);
            },
            None => {},
        }
        let ghost tail = lines_view(lines@);
        assert(emitted + tail =~= raw_lines(fed));
        if self.ended {
            proof {
                lemma_items_stop(emitted, tail, false, self.items@);
                assert(self.items@ + Seq::<Result<String, Error>>::empty() =~= self.items@);
            }
            return Vec::new();
        }
        let (out, ended) = line_items(lines, self.started);
        proof {
            lemma_items_concat(emitted, tail, false, self.items@, out@);
            self.items@ = self.items@ + out@;
        }
        self.ended = ended;
        self.started = self.started || out.len() > 0;
        out
    }
}

} // verus!
