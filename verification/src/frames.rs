//! Message framing on the socket: a payload travels as `<TCP_MESSAGE>payload</TCP_MESSAGE>`, and
//! a read can end anywhere, also inside a tag.
use crate::text::{chars_of, search_from, search_last, text_of, trim_bounds};
use vstd::prelude::*;
use vstd::utf8::encode_utf8;

verus! {

/// A buffer longer than this, in bytes, that holds no opening tag is garbage.
pub const GARBAGE_CAP: usize = 1_048_576;

/// The longest unterminated frame that is kept, in bytes.
pub const FRAME_CAP: usize = 16_777_216;

/// The tag that starts a frame.
pub open spec fn open_tag() -> Seq<char> {
    "<TCP_MESSAGE>"@
}

/// The tag that ends a frame.
pub open spec fn close_tag() -> Seq<char> {
    "</TCP_MESSAGE>"@
}

/// A payload between its tags.
pub open spec fn framed(payload: Seq<char>) -> Seq<char> {
    open_tag() + payload + close_tag()
}

/// The length of `text` in bytes.
pub open spec fn byte_len(text: Seq<char>) -> nat {
    encode_utf8(text).len()
}

/// The payloads of the complete frames in `buf`, and what is left after the last of them. A
/// closing tag that comes before the first opening tag is torn: everything up to it is dropped.
/// White space around a payload is dropped, and so is a payload with nothing else in it.
pub open spec fn split_frames(buf: Seq<char>) -> (Seq<Seq<char>>, Seq<char>)
    decreases buf.len(),
{
    match (crate::text::find(buf, open_tag()), crate::text::find(buf, close_tag())) {
        (Some(s), Some(e)) => {
            let next = e + close_tag().len();
            if 0 <= e && e < next <= buf.len() {
                let (payloads, tail) = split_frames(buf.skip(next));
                let payload = crate::text::trim(buf.subrange(s + open_tag().len(), e));
                if e < s || payload.len() == 0 {
                    (payloads, tail)
                } else {
                    (seq![payload] + payloads, tail)
                }
            } else {
                (Seq::empty(), buf)
            }
        },
        _ => (Seq::empty(), buf),
    }
}

/// What is kept of an unfinished buffer: all of it while it is short, nothing once it is garbage
/// or one overlong frame, and the part from the last opening tag on where that is short enough.
pub open spec fn capped(buf: Seq<char>) -> Seq<char> {
    if byte_len(buf) > GARBAGE_CAP && !crate::text::contains(buf, open_tag()) {
        Seq::empty()
    } else if byte_len(buf) > FRAME_CAP {
        match crate::text::rfind(buf, open_tag()) {
            Some(last) => if last > 0 && byte_len(buf.skip(last)) <= FRAME_CAP {
                buf.skip(last)
            } else {
                Seq::empty()
            },
            None => Seq::empty(),
        }
    } else {
        buf
    }
}

/// A tag holds one `<`, at its start, and what follows it tells the two tags apart.
proof fn lemma_tags()
    ensures
        open_tag().len() == 13,
        close_tag().len() == 14,
        open_tag()[0] == '<',
        close_tag()[0] == '<',
        open_tag()[1] != close_tag()[1],
        forall|i: int| 1 <= i < 13 ==> open_tag()[i] != '<',
        forall|i: int| 1 <= i < 14 ==> close_tag()[i] != '<',
{
    reveal_strlit("<TCP_MESSAGE>");
    reveal_strlit("</TCP_MESSAGE>");
}

/// Two tags in one buffer never overlap.
proof fn lemma_tags_apart(buf: Seq<char>, s: int, e: int)
    requires
        crate::text::occurs_at(buf, open_tag(), s),
        crate::text::occurs_at(buf, close_tag(), e),
    ensures
        s + open_tag().len() <= e || e + close_tag().len() <= s,
{
    lemma_tags();
    let o = buf.subrange(s, s + 13);
    let c = buf.subrange(e, e + 14);
    assert(o =~= open_tag());
    assert(c =~= close_tag());
    if s < e < s + 13 {
        assert(o[e - s] == buf[e] && c[0] == buf[e]);
    }
    if e < s < e + 14 {
        assert(c[s - e] == buf[s] && o[0] == buf[s]);
    }
    if e == s {
        assert(o[1] == buf[s + 1] && c[1] == buf[s + 1]);
    }
}

/// Puts a payload between its tags.
pub fn frame(payload: &str) -> (text: String)
    ensures
        text@ == framed(payload@),
{
    let mut text = "<TCP_MESSAGE>".to_owned();
    text.append(payload);
    text.append("</TCP_MESSAGE>");
    text
}

/// Takes the complete frames out of `buf` and returns their payloads.
pub fn extract_frames(buf: &mut String) -> (payloads: Vec<String>)
    ensures
        crate::text::texts(payloads@) == split_frames(old(buf)@).0,
        final(buf)@ == capped(split_frames(old(buf)@).1),
{
    let open = chars_of("<TCP_MESSAGE>");
    let close = chars_of("</TCP_MESSAGE>");
    let chars = chars_of(buf.as_str());
    let mut start: usize = 0;
    let mut payloads: Vec<String> = Vec::new();
    proof {
        lemma_tags();
        assert(chars@.skip(0) =~= chars@);
        assert(crate::text::texts(payloads@) + split_frames(chars@).0 =~= split_frames(chars@).0);
    }
    loop
        invariant
            open@ == open_tag(),
            close@ == close_tag(),
            open_tag().len() == 13,
            close_tag().len() == 14,
            start <= chars@.len() == chars.len(),
            crate::text::texts(payloads@) + split_frames(chars@.skip(start as int)).0 == split_frames(chars@).0,
            split_frames(chars@.skip(start as int)).1 == split_frames(chars@).1,
        ensures
            start <= chars@.len(),
            crate::text::texts(payloads@) == split_frames(chars@).0,
            chars@.skip(start as int) == split_frames(chars@).1,
        decreases chars@.len() - start,
    {
        let ghost rest = chars@.skip(start as int);
        proof {
            lemma_skip_find(chars@, open@, start as int);
            lemma_skip_find(chars@, close@, start as int);
        }
        let s: usize = match search_from(&chars, &open, start) {
            Some(s) => s,
            None => {
                assert(crate::text::texts(payloads@) + Seq::<Seq<char>>::empty() =~= crate::text::texts(payloads@));
                break;
            },
        };
        let e: usize = match search_from(&chars, &close, start) {
            Some(e) => e,
            None => {
                assert(crate::text::texts(payloads@) + Seq::<Seq<char>>::empty() =~= crate::text::texts(payloads@));
                break;
            },
        };
        proof {
            crate::text::lemma_find_from(rest, open@, 0);
            crate::text::lemma_find_from(rest, close@, 0);
            lemma_tags_apart(rest, s - start, e - start);
            assert(rest.skip(e + 14 - start) =~= chars@.skip(e + 14));
        }
        if e > s {
            let bounds = trim_bounds(&chars, s + 13, e);
            assert(rest.subrange(s - start + 13, e - start) =~= chars@.subrange(
                s + 13,
                e as int,
            ));
            if bounds.0 < bounds.1 {
                let payload = text_of(&chars, bounds.0, bounds.1);
                let ghost before = crate::text::texts(payloads@);
                payloads.push(payload);
                proof {
                    assert(crate::text::texts(payloads@) =~= before.push(payload@));
                    let tail = split_frames(chars@.skip(e + 14)).0;
                    assert(before + (seq![payload@] + tail) =~= before.push(payload@) + tail);
                }
            }
        }
        start = e + 14;
    }
    let ghost tail = chars@.skip(start as int);
    if start > 0 {
        *buf = text_of(&chars, start, chars.len());
    }
    proof {
        assert(chars@.subrange(start as int, chars@.len() as int) =~= tail);
        assert(buf@ == tail);
    }
    cap_buffer(buf);
    payloads
}

/// Searching from `start` is searching what follows `start`.
proof fn lemma_skip_find(text: Seq<char>, part: Seq<char>, start: int)
    requires
        0 <= start <= text.len(),
    ensures
        match crate::text::find_from(text, part, start) {
            Some(at) => crate::text::find(text.skip(start), part) == Some(at - start),
            None => crate::text::find(text.skip(start), part) is None,
        },
{
    let rest = text.skip(start);
    crate::text::lemma_find_from(text, part, start);
    crate::text::lemma_find_from(rest, part, 0);
    assert forall|j: int| 0 <= j implies crate::text::occurs_at(rest, part, j)
        == crate::text::occurs_at(text, part, start + j) by {
        if j + part.len() <= rest.len() {
            assert(rest.subrange(j, j + part.len()) =~= text.subrange(
                start + j,
                start + j + part.len(),
            ));
        }
    }
    match crate::text::find_from(text, part, start) {
        Some(at) => {
            assert(crate::text::occurs_at(rest, part, at - start));
            assert forall|j: int| 0 <= j < at - start implies !crate::text::occurs_at(
                rest,
                part,
                j,
            ) by {
                assert(!crate::text::occurs_at(text, part, start + j));
            }
            crate::text::lemma_find_is(rest, part, 0, at - start);
        },
        None => {},
    }
}

/// Cuts an unfinished buffer down to what is kept of it.
fn cap_buffer(buf: &mut String)
    ensures
        final(buf)@ == capped(old(buf)@),
{
    let len: usize = buf.as_str().as_bytes().len();
    if len <= GARBAGE_CAP {
        return;
    }
    let open = chars_of("<TCP_MESSAGE>");
    let chars = chars_of(buf.as_str());
    proof {
        crate::text::lemma_rfind_from(chars@, open@, chars@.len() - open@.len());
    }
    match search_last(&chars, &open) {
        None => {
            assert(!crate::text::contains(chars@, open@));
            *buf = String::new();
        },
        Some(last) => {
            assert(crate::text::contains(chars@, open@));
            if len > FRAME_CAP {
                let kept = text_of(&chars, last, chars.len());
                assert(chars@.subrange(last as int, chars@.len() as int) =~= chars@.skip(
                    last as int,
                ));
                if last > 0 && kept.as_str().as_bytes().len() <= FRAME_CAP {
                    *buf = kept;
                } else {
                    *buf = String::new();
                }
            }
        },
    }
    assert(buf@ =~= capped(chars@));
}

// ── Laws ─────────────────────────────────────────────────────────────────────

/// Where `part` stands in `a`, a search in `a + b` gives the same first position.
proof fn lemma_find_in_prefix(a: Seq<char>, b: Seq<char>, part: Seq<char>)
    requires
        crate::text::find(a, part) is Some,
    ensures
        crate::text::find(a + b, part) == crate::text::find(a, part),
{
    crate::text::lemma_find_from(a, part, 0);
    let at = crate::text::find(a, part).unwrap();
    assert forall|j: int| 0 <= j <= at implies crate::text::occurs_at(a + b, part, j)
        == crate::text::occurs_at(a, part, j) by {
        assert(at + part.len() <= a.len());
        assert((a + b).subrange(j, j + part.len()) =~= a.subrange(j, j + part.len()));
    }
    assert forall|j: int| 0 <= j < at implies !crate::text::occurs_at(a + b, part, j) by {
        assert(!crate::text::occurs_at(a, part, j));
    }
    crate::text::lemma_find_is(a + b, part, 0, at);
}

/// Reading in pieces changes nothing: what a stream `a + b` holds is what `a` holds, followed by
/// what the rest of `a` and `b` hold together, wherever the stream was cut.
pub proof fn law_fragmented_stream(a: Seq<char>, b: Seq<char>)
    ensures
        split_frames(a + b).0 == split_frames(a).0 + split_frames(split_frames(a).1 + b).0,
        split_frames(a + b).1 == split_frames(split_frames(a).1 + b).1,
    decreases a.len(),
{
    let open = open_tag();
    let close = close_tag();
    match (crate::text::find(a, open), crate::text::find(a, close)) {
        (Some(s), Some(e)) => {
            lemma_tags();
            crate::text::lemma_find_from(a, open, 0);
            crate::text::lemma_find_from(a, close, 0);
            lemma_find_in_prefix(a, b, open);
            lemma_find_in_prefix(a, b, close);
            lemma_tags_apart(a, s, e);
            let next = e + 14;
            assert((a + b).skip(next) =~= a.skip(next) + b);
            law_fragmented_stream(a.skip(next), b);
            if s < e {
                assert((a + b).subrange(s + 13, e) =~= a.subrange(s + 13, e));
            }
            let payload = crate::text::trim(a.subrange(s + 13, e));
            let now = split_frames(a.skip(next)).0;
            let later = split_frames(split_frames(a).1 + b).0;
            assert((seq![payload] + now) + later =~= seq![payload] + (now + later));
        },
        _ => {
            assert(Seq::<Seq<char>>::empty() + split_frames(a + b).0 =~= split_frames(a + b).0);
        },
    }
}

/// A framed payload that holds no closing tag comes out again, without the white space around
/// it, ahead of whatever follows it in the stream.
pub proof fn law_framed_payload_comes_out(payload: Seq<char>, rest: Seq<char>)
    requires
        !crate::text::contains(payload, close_tag()),
        crate::text::trim(payload).len() > 0,
    ensures
        split_frames(framed(payload) + rest).0 == seq![crate::text::trim(payload)] + split_frames(
            rest,
        ).0,
        split_frames(framed(payload) + rest).1 == split_frames(rest).1,
{
    lemma_tags();
    let open = open_tag();
    let close = close_tag();
    let buf = open + payload + close + rest;
    let e: int = 13 + payload.len() as int;
    assert(buf.subrange(0, 13) =~= open);
    crate::text::lemma_find_is(buf, open, 0, 0);
    assert(buf.subrange(e, e + 14) =~= close);
    assert forall|j: int| 0 <= j < e implies !crate::text::occurs_at(buf, close, j) by {
        if crate::text::occurs_at(buf, close, j) {
            let c = buf.subrange(j, j + 14);
            assert(c[0] == buf[j] && c[1] == buf[j + 1]);
            if j < 13 {
                assert(buf[j] == open[j]);
                assert(buf[1] == open[1]);
            } else if j + 14 <= e {
                assert(payload.subrange(j - 13, j + 1) =~= c);
                assert(crate::text::occurs_at(payload, close, j - 13));
            } else {
                assert(c[e - j] == buf[e] && buf[e] == close[0]);
            }
        }
    }
    crate::text::lemma_find_is(buf, close, 0, e);
    assert(buf.subrange(13, e) =~= payload);
    assert(buf.skip(e + 14) =~= rest);
}

/// A buffer never grows past the frame limit.
pub proof fn law_buffer_is_bounded(buf: Seq<char>)
    ensures
        byte_len(capped(buf)) <= FRAME_CAP,
{
    assert(byte_len(Seq::empty()) == 0);
}

/// An unfinished frame that is within the limit is never lost, whatever came before it.
pub proof fn law_partial_frame_survives(garbage: Seq<char>, partial: Seq<char>)
    requires
        byte_len(open_tag() + partial) <= FRAME_CAP,
        !crate::text::contains((open_tag() + partial).skip(1), open_tag()),
    ensures
        capped(garbage + (open_tag() + partial)) == garbage + (open_tag() + partial) || capped(
            garbage + (open_tag() + partial),
        ) == open_tag() + partial,
{
    let open = open_tag();
    let frame = open + partial;
    let buf = garbage + frame;
    let at = garbage.len() as int;
    assert(buf.skip(at) =~= frame);
    assert(open.len() == 13) by {
        lemma_tags();
    }
    assert(crate::text::occurs_at(buf, open, at)) by {
        assert(buf.subrange(at, at + open.len()) =~= open);
    }
    assert forall|j: int| at < j implies !crate::text::occurs_at(buf, open, j) by {
        if crate::text::occurs_at(buf, open, j) {
            assert(frame.skip(1).subrange(j - at - 1, j - at - 1 + open.len()) =~= buf.subrange(
                j,
                j + open.len(),
            ));
            assert(crate::text::occurs_at(frame.skip(1), open, j - at - 1));
        }
    }
    crate::text::lemma_rfind_is(buf, open, at);
    assert(at == 0 ==> buf =~= frame);
}

} // verus!
