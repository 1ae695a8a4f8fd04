//! A minimal SSE frame parser.
//!
//! The protocol is parsed here rather than by a client library, because gapless resume
//! hinges on owning exactly what is done with the `id:` field: Wikimedia's id is a JSON
//! array of Kafka offsets, and it is the token that is persisted and replayed from.

use vstd::prelude::*;
use vstd::utf8::*;
use vstd::slice::slice_subrange;
use crate::text;

verus! {

/// The line feed that ends a line.
pub const LF: u8 = 0x0a;

/// The carriage return that may stand before it.
pub const CR: u8 = 0x0d;

/// What separates a field's name from its value, and begins a comment.
pub const COLON: u8 = 0x3a;

/// What may follow the colon.
pub const SPACE: u8 = 0x20;

// ---------------------------------------------------------------------------
// Model
// ---------------------------------------------------------------------------

/// What a frame holds.
pub struct FrameView {
    pub id: Option<Seq<char>>,
    pub event: Option<Seq<char>>,
    pub data: Seq<char>,
}

/// What a parser holds: the bytes of the unfinished line, and the unfinished frame.
pub struct ParserView {
    pub pending: Seq<u8>,
    pub frame: FrameView,
}

/// The frame before any line of it has arrived.
pub open spec fn blank_frame() -> FrameView {
    FrameView { id: None, event: None, data: Seq::empty() }
}

/// A frame with neither data nor an id is not worth dispatching.
pub open spec fn frame_is_empty(f: FrameView) -> bool {
    f.data.len() == 0 && f.id is None
}

/// The text that bytes decode to, with invalid sequences replaced: what
/// `String::from_utf8_lossy` returns.
pub uninterp spec fn utf8_lossy(bytes: Seq<u8>) -> Seq<char>;

/// The text of a field: what its bytes encode where they are valid UTF-8, and otherwise what
/// replacing the invalid sequences leaves.
pub open spec fn decoded(bytes: Seq<u8>) -> Seq<char> {
    if valid_utf8(bytes) {
        decode_utf8(bytes)
    } else {
        utf8_lossy(bytes)
    }
}

/// The position of the first `b` in `s`, or the length of `s` where there is none.
pub open spec fn index_of_byte(s: Seq<u8>, b: u8) -> int
    decreases s.len(),
{
    if s.len() == 0 || s[0] == b {
        0
    } else {
        1 + index_of_byte(s.skip(1), b)
    }
}

/// The bytes of an ASCII text.
pub open spec fn ascii(s: Seq<char>) -> Seq<u8> {
    Seq::new(s.len(), |i: int| s[i] as u8)
}

/// The name before the first colon; the whole line where there is no colon.
pub open spec fn field_name(line: Seq<u8>) -> Seq<u8> {
    line.take(index_of_byte(line, COLON))
}

/// What follows the first colon, without the one space that may stand there; nothing
/// where there is no colon.
pub open spec fn field_value(line: Seq<u8>) -> Seq<u8> {
    let at = index_of_byte(line, COLON);
    if at >= line.len() {
        Seq::empty()
    } else if at + 1 < line.len() && line[at + 1] == SPACE {
        line.skip(at + 2)
    } else {
        line.skip(at + 1)
    }
}

/// The frame after a field: `id` and `event` are replaced, `data` lines are joined by
/// newlines, and every other field is ignored.
pub open spec fn with_field(f: FrameView, name: Seq<u8>, value: Seq<char>) -> FrameView {
    if name == ascii("id"@) {
        FrameView { id: Some(value), ..f }
    } else if name == ascii("event"@) {
        FrameView { event: Some(value), ..f }
    } else if name == ascii("data"@) {
        FrameView {
            data: if f.data.len() == 0 {
                value
            } else {
                f.data.push('\n') + value
            },
            ..f
        }
    } else {
        f
    }
}

/// The frame under construction after a line, and the frame that the line dispatches.
pub open spec fn after_line(f: FrameView, line: Seq<u8>) -> (FrameView, Option<FrameView>) {
    if line.len() == 0 {
        (
            blank_frame(),
            if frame_is_empty(f) {
                None
            } else {
                Some(f)
            },
        )
    } else if line[0] == COLON {
        (f, None)
    } else {
        (with_field(f, field_name(line), decoded(field_value(line))), None)
    }
}

/// A line without the carriage return that may end it.
pub open spec fn without_cr(line: Seq<u8>) -> Seq<u8> {
    if line.len() > 0 && line.last() == CR {
        line.drop_last()
    } else {
        line
    }
}

/// The parser after one byte, and the frames that the byte completes.
pub open spec fn after_byte(p: ParserView, b: u8) -> (ParserView, Seq<FrameView>) {
    if b == LF {
        let (frame, done) = after_line(p.frame, without_cr(p.pending));
        (
            ParserView { pending: Seq::empty(), frame },
            match done {
                Some(f) => seq![f],
                None => Seq::empty(),
            },
        )
    } else {
        (ParserView { pending: p.pending.push(b), ..p }, Seq::empty())
    }
}

/// The parser after some bytes, and the frames that they complete, in order.
pub open spec fn after_bytes(p: ParserView, bytes: Seq<u8>) -> (ParserView, Seq<FrameView>)
    decreases bytes.len(),
{
    if bytes.len() == 0 {
        (p, Seq::empty())
    } else {
        let (mid, done) = after_bytes(p, bytes.drop_last());
        let (end, more) = after_byte(mid, bytes.last());
        (end, done + more)
    }
}

/// What the frames of a sequence hold.
pub open spec fn frames(v: Seq<Frame>) -> Seq<FrameView> {
    Seq::new(v.len(), |i: int| v[i]@)
}

// ---------------------------------------------------------------------------
// Frames
// ---------------------------------------------------------------------------

/// One dispatched SSE frame.
#[derive(Debug, Clone)]
pub struct Frame {
    /// Contents of the `id:` field; opaque, goes straight back as `Last-Event-ID`.
    pub id: Option<String>,
    /// The `event:` type. Wikimedia sends `message`.
    pub event: Option<String>,
    /// The `data:` lines, joined by newlines.
    pub data: String,
}

impl View for Frame {
    type V = FrameView;

    open spec fn view(&self) -> FrameView {
        FrameView { id: text::opt_text(self.id), event: text::opt_text(self.event), data: self.data@ }
    }
}

impl Default for Frame {
    fn default() -> (r: Self)
        ensures
            r@ == blank_frame(),
    {
        Frame { id: None, event: None, data: String::new() }
    }
}

/// Whether a field has the given ASCII name.
fn name_is(name: &[u8], word: &str) -> (r: bool)
    requires
        forall|i: int| 0 <= i < word@.len() ==> '\u{0}' <= #[trigger] word@[i] <= '\u{7f}',
    ensures
        r == (name@ == ascii(word@)),
{
    let w: Vec<char> = text::chars_of(word);
    if name.len() != w.len() {
        return false;
    }
    let mut i: usize = 0;
    while i < w.len()
        invariant
            w@ == word@,
            name@.len() == w@.len(),
            i <= w@.len(),
            forall|k: int| 0 <= k < word@.len() ==> '\u{0}' <= #[trigger] word@[k] <= '\u{7f}',
            forall|k: int| 0 <= k < i ==> name@[k] == word@[k] as u8,
        decreases w@.len() - i,
    {
        let c: char = w[i];
        assert('\u{0}' <= word@[i as int] <= '\u{7f}');
        if name[i] as u32 != c as u32 {
            assert(name@[i as int] != ascii(word@)[i as int]);
            return false;
        }
        i = i + 1;
    }
    assert(name@ =~= ascii(word@));
    true
}

impl Frame {
    /// Whether there is nothing to dispatch.
    pub fn is_empty(&self) -> (r: bool)
        ensures
            r == frame_is_empty(self@),
    {
        self.data.as_str().is_empty() && self.id.is_none()
    }

    /// Takes in one field whose value has been decoded.
    pub fn set_field(&mut self, name: &[u8], value: String)
        ensures
            final(self)@ == with_field(old(self)@, name@, value@),
    {
        proof {
            reveal_strlit("id");
            reveal_strlit("event");
            reveal_strlit("data");
        }
        if name_is(name, "id") {
            self.id = Some(value);
        } else if name_is(name, "event") {
            self.event = Some(value);
        } else if name_is(name, "data") {
            let first: bool = self.data.as_str().is_empty();
            if first {
                self.data = value;
            } else {
                self.data.append("\n");
                self.data.append(value.as_str());
                proof {
                    reveal_strlit("\n");
                    assert(self.data@ =~= old(self).data@.push('\n') + value@);
                }
            }
        }
    }
}

/// Decodes bytes with `String::from_utf8_lossy`. The contract names its result, and says
/// that bytes which are valid UTF-8 decode to the text they encode. Where the replacement
/// characters go in any other text is left to the name.
#[verifier::external_body]
fn decode_lossy(bytes: &[u8]) -> (r: String)
    ensures
        r@ == utf8_lossy(bytes@),
        valid_utf8(bytes@) ==> r@ == decode_utf8(bytes@),
{
    String::from_utf8_lossy(bytes).into_owned()
}

// ---------------------------------------------------------------------------
// The parser
// ---------------------------------------------------------------------------

/// Incremental parser: feed it bytes, drain complete frames.
pub struct Parser {
    /// Bytes received but not yet ended by a newline.
    line_buf: Vec<u8>,
    /// The frame under construction.
    current: Frame,
}

impl View for Parser {
    type V = ParserView;

    closed spec fn view(&self) -> ParserView {
        ParserView { pending: self.line_buf@, frame: self.current@ }
    }
}

impl Default for Parser {
    fn default() -> (r: Self)
        ensures
            r@ == (ParserView { pending: Seq::<u8>::empty(), frame: blank_frame() }),
    {
        Parser { line_buf: Vec::new(), current: Frame::default() }
    }
}

/// The position of the first colon, where there is one.
fn colon(line: &[u8]) -> (r: usize)
    ensures
        r == index_of_byte(line@, COLON),
        r <= line@.len(),
{
    let mut at: usize = 0;
    assert(line@.skip(0) =~= line@);
    while at < line.len() && line[at] != COLON
        invariant
            at <= line@.len(),
            index_of_byte(line@, COLON) == at + index_of_byte(line@.skip(at as int), COLON),
        decreases line@.len() - at,
    {
        assert(line@.skip(at as int).skip(1) =~= line@.skip(at + 1));
        at = at + 1;
    }
    at
}

impl Parser {
    /// A parser that has seen nothing.
    pub fn new() -> (r: Self)
        ensures
            r@ == (ParserView { pending: Seq::<u8>::empty(), frame: blank_frame() }),
    {
        Self::default()
    }

    /// Takes in one line, without its terminator; returns the frame that it dispatches.
    pub fn consume_line(&mut self, line: &[u8]) -> (r: Option<Frame>)
        ensures
            final(self)@.pending == old(self)@.pending,
            final(self)@.frame == after_line(old(self)@.frame, line@).0,
            match r {
                Some(f) => after_line(old(self)@.frame, line@).1 == Some(f@),
                None => after_line(old(self)@.frame, line@).1 is None,
            },
    {
        if line.len() == 0 {
            let mut frame: Frame = Frame::default();
            core::mem::swap(&mut frame, &mut self.current);
            return if frame.is_empty() {
                None
            } else {
                Some(frame)
            };
        }
        if line[0] == COLON {
            return None;
        }
        let at: usize = colon(line);
        let value: &[u8] = if at == line.len() {
            slice_subrange(line, at, at)
        } else if at + 1 < line.len() && line[at + 1] == SPACE {
            slice_subrange(line, at + 2, line.len())
        } else {
            slice_subrange(line, at + 1, line.len())
        };
        assert(value@ =~= field_value(line@));
        let name: &[u8] = slice_subrange(line, 0, at);
        assert(name@ =~= field_name(line@));
        let text: String = decode_lossy(value);
        self.current.set_field(name, text);
        None
    }

    /// Takes in one byte; returns the frame that it completes.
    fn push_byte(&mut self, byte: u8) -> (r: Option<Frame>)
        ensures
            final(self)@ == after_byte(old(self)@, byte).0,
            match r {
                Some(f) => after_byte(old(self)@, byte).1 == seq![f@],
                None => after_byte(old(self)@, byte).1 == Seq::<FrameView>::empty(),
            },
    {
        if byte == LF {
            let mut line: Vec<u8> = Vec::new();
            core::mem::swap(&mut line, &mut self.line_buf);
            let n: usize = line.len();
            let end: usize = if n > 0 && line[n - 1] == CR {
                n - 1
            } else {
                n
            };
            let bare: &[u8] = slice_subrange(line.as_slice(), 0, end);
            assert(bare@ =~= without_cr(old(self)@.pending));
            self.consume_line(bare)
        } else {
            self.line_buf.push(byte);
            None
        }
    }

    /// Feeds a chunk; returns every frame that it completes, in order.
    pub fn feed(&mut self, chunk: &[u8]) -> (r: Vec<Frame>)
        ensures
            final(self)@ == after_bytes(old(self)@, chunk@).0,
            frames(r@) == after_bytes(old(self)@, chunk@).1,
    {
        let mut out: Vec<Frame> = Vec::new();
        let mut i: usize = 0;
        assert(chunk@.take(0) =~= Seq::<u8>::empty());
        assert(frames(out@) =~= Seq::<FrameView>::empty());
        while i < chunk.len()
            invariant
                i <= chunk@.len(),
                self@ == after_bytes(old(self)@, chunk@.take(i as int)).0,
                frames(out@) == after_bytes(old(self)@, chunk@.take(i as int)).1,
            decreases chunk@.len() - i,
        {
            let ghost before = out@;
            let ghost next = chunk@.take(i + 1);
            assert(next.drop_last() =~= chunk@.take(i as int));
            assert(next.last() == chunk@[i as int]);
            match self.push_byte(chunk[i]) {
                Some(frame) => {
                    out.push(frame);
                    assert(frames(out@) =~= frames(before) + seq![frame@]);
                },
                None => {
                    assert(frames(out@) =~= frames(before) + Seq::<FrameView>::empty());
                },
            }
            i = i + 1;
        }
        assert(chunk@.take(i as int) =~= chunk@);
        out
    }
}

// ---------------------------------------------------------------------------
// Laws
// ---------------------------------------------------------------------------

/// Where the stream is cut into chunks does not matter: feeding `a` and then `b` leaves the
/// parser as feeding both at once does, and dispatches the same frames in the same order.
pub proof fn law_chunking_is_invisible(p: ParserView, a: Seq<u8>, b: Seq<u8>)
    ensures
        after_bytes(p, a + b).0 == after_bytes(after_bytes(p, a).0, b).0,
        after_bytes(p, a + b).1 == after_bytes(p, a).1 + after_bytes(after_bytes(p, a).0, b).1,
    decreases b.len(),
{
    let mid = after_bytes(p, a);
    if b.len() == 0 {
        assert(a + b =~= a);
        assert(mid.1 + Seq::<FrameView>::empty() =~= mid.1);
    } else {
        law_chunking_is_invisible(p, a, b.drop_last());
        assert((a + b).drop_last() =~= a + b.drop_last());
        assert((a + b).last() == b.last());
        let rest = after_bytes(mid.0, b.drop_last());
        let tail = after_byte(rest.0, b.last());
        assert(mid.1 + rest.1 + tail.1 =~= mid.1 + (rest.1 + tail.1));
    }
}

/// Bytes without a newline are only remembered: nothing is dispatched until the line ends.
pub proof fn law_unfinished_lines_dispatch_nothing(p: ParserView, bytes: Seq<u8>)
    requires
        !bytes.contains(LF),
    ensures
        after_bytes(p, bytes).0 == (ParserView { pending: p.pending + bytes, frame: p.frame }),
        after_bytes(p, bytes).1 == Seq::<FrameView>::empty(),
    decreases bytes.len(),
{
    if bytes.len() == 0 {
        assert(p.pending + bytes =~= p.pending);
    } else {
        let front = bytes.drop_last();
        assert forall|i: int| 0 <= i < front.len() implies front[i] != LF by {
            assert(front[i] == bytes[i]);
        }
        assert(bytes[bytes.len() - 1] == bytes.last());
        law_unfinished_lines_dispatch_nothing(p, front);
        assert((p.pending + front).push(bytes.last()) =~= p.pending + bytes);
        assert(Seq::<FrameView>::empty() + Seq::<FrameView>::empty() =~= Seq::<
            FrameView,
        >::empty());
    }
}

/// A line ended by CR LF is the line ended by LF.
pub proof fn law_crlf_is_tolerated(p: ParserView, line: Seq<u8>)
    requires
        !line.contains(LF),
        (p.pending + line).len() > 0 ==> (p.pending + line).last() != CR,
    ensures
        after_bytes(p, line.push(CR).push(LF)) == after_bytes(p, line.push(LF)),
{
    law_unfinished_lines_dispatch_nothing(p, line);
    let with_cr = line.push(CR);
    assert forall|i: int| 0 <= i < with_cr.len() implies with_cr[i] != LF by {
        if i < line.len() {
            assert(with_cr[i] == line[i]);
        }
    }
    law_unfinished_lines_dispatch_nothing(p, with_cr);
    assert(with_cr.push(LF).drop_last() =~= with_cr);
    assert(line.push(LF).drop_last() =~= line);
    let held = p.pending + line;
    assert(p.pending + with_cr =~= held.push(CR));
    assert(held.push(CR).drop_last() =~= held);
    assert(without_cr(held) == held);
}

/// Comment lines, which begin with a colon, change nothing.
pub proof fn law_comments_are_skipped(p: ParserView, comment: Seq<u8>)
    requires
        p.pending.len() == 0,
        !comment.contains(LF),
        comment.len() > 0,
        comment[0] == COLON,
    ensures
        after_bytes(p, comment.push(LF)).0 == p,
        after_bytes(p, comment.push(LF)).1 == Seq::<FrameView>::empty(),
{
    law_unfinished_lines_dispatch_nothing(p, comment);
    assert(comment.push(LF).drop_last() =~= comment);
    assert(p.pending + comment =~= comment);
    assert(p.pending =~= Seq::<u8>::empty());
    assert(Seq::<FrameView>::empty() + Seq::<FrameView>::empty() =~= Seq::<FrameView>::empty());
}

/// A field as a server writes it: the name, a colon, a space, the value, a line feed.
pub open spec fn written_field(name: Seq<u8>, value: Seq<u8>) -> Seq<u8> {
    (name.push(COLON).push(SPACE) + value).push(LF)
}

/// A written field is read back: its value is decoded and set under its name, whatever
/// colons and spaces stand in it, and nothing is dispatched yet.
pub proof fn law_written_field_is_read(f: FrameView, name: Seq<u8>, value: Seq<u8>)
    requires
        name.len() > 0,
        !name.contains(COLON),
        !name.contains(LF),
        !value.contains(LF),
        value.len() > 0 ==> value.last() != CR,
    ensures
        after_bytes(
            ParserView { pending: Seq::empty(), frame: f },
            written_field(name, value),
        ) == (
            ParserView {
                pending: Seq::<u8>::empty(),
                frame: with_field(f, name, decoded(value)),
            },
            Seq::<FrameView>::empty(),
        ),
{
    let p = ParserView { pending: Seq::<u8>::empty(), frame: f };
    let line = name.push(COLON).push(SPACE) + value;
    assert forall|i: int| 0 <= i < line.len() implies line[i] != LF by {
        if i < name.len() {
            assert(line[i] == name[i]);
        } else if i >= name.len() + 2 {
            assert(line[i] == value[i - name.len() - 2]);
        }
    }
    law_unfinished_lines_dispatch_nothing(p, line);
    assert(p.pending + line =~= line);
    assert(line.push(LF).drop_last() =~= line);
    assert(line.last() != CR) by {
        if value.len() > 0 {
            assert(line.last() == value.last());
        }
    }
    assert(without_cr(line) == line);
    lemma_index_of_byte(line, COLON);
    let at = index_of_byte(line, COLON);
    assert(line[name.len() as int] == COLON);
    if at < name.len() {
        assert(line[at] == name[at]);
    }
    assert(at == name.len());
    assert(line[0] == name[0]);
    assert(field_name(line) =~= name);
    assert(field_value(line) =~= value);
    assert(Seq::<FrameView>::empty() + Seq::<FrameView>::empty() =~= Seq::<FrameView>::empty());
}

/// What `index_of_byte` finds is the first occurrence.
proof fn lemma_index_of_byte(s: Seq<u8>, b: u8)
    ensures
        0 <= index_of_byte(s, b) <= s.len(),
        forall|j: int| 0 <= j < index_of_byte(s, b) ==> s[j] != b,
        index_of_byte(s, b) < s.len() ==> s[index_of_byte(s, b)] == b,
    decreases s.len(),
{
    if s.len() > 0 && s[0] != b {
        let t = s.skip(1);
        lemma_index_of_byte(t, b);
        assert forall|j: int| 0 <= j < index_of_byte(s, b) implies s[j] != b by {
            if j > 0 {
                assert(t[j - 1] == s[j]);
            }
        }
        if index_of_byte(s, b) < s.len() {
            assert(t[index_of_byte(t, b)] == s[index_of_byte(s, b)]);
        }
    }
}

/// An event as the stream writes it, an id, data and a blank line, comes out of a fresh
/// parser as exactly one frame that carries that id and that data, and leaves the parser
/// fresh.
pub proof fn law_id_and_data_come_through(id: Seq<u8>, data: Seq<u8>)
    requires
        !id.contains(LF),
        id.len() > 0 ==> id.last() != CR,
        !data.contains(LF),
        data.len() > 0 ==> data.last() != CR,
    ensures
        after_bytes(
            ParserView { pending: Seq::empty(), frame: blank_frame() },
            (written_field(ascii("id"@), id) + written_field(ascii("data"@), data)).push(LF),
        ) == (
            ParserView { pending: Seq::<u8>::empty(), frame: blank_frame() },
            seq![
                FrameView {
                    id: Some(decoded(id)),
                    event: None,
                    data: decoded(data),
                },
            ],
        ),
{
    reveal_strlit("id");
    reveal_strlit("event");
    reveal_strlit("data");
    let fresh = ParserView { pending: Seq::<u8>::empty(), frame: blank_frame() };
    let a = written_field(ascii("id"@), id);
    let b = written_field(ascii("data"@), data);
    let name_id = ascii("id"@);
    let name_data = ascii("data"@);
    assert(name_id =~= seq![0x69u8, 0x64u8]);
    assert(name_data =~= seq![0x64u8, 0x61u8, 0x74u8, 0x61u8]);
    assert(ascii("event"@).len() == 5);
    law_written_field_is_read(blank_frame(), name_id, id);
    let f1 = with_field(blank_frame(), name_id, decoded(id));
    law_written_field_is_read(f1, name_data, data);
    let f2 = with_field(f1, name_data, decoded(data));
    law_chunking_is_invisible(fresh, a, b);
    let ab = after_bytes(fresh, a + b);
    assert(ab.0 == (ParserView { pending: Seq::<u8>::empty(), frame: f2 }));
    assert(ab.1 =~= Seq::<FrameView>::empty());
    assert((a + b).push(LF).drop_last() =~= a + b);
    assert(without_cr(Seq::<u8>::empty()) =~= Seq::<u8>::empty());
    assert(Seq::<FrameView>::empty() + seq![f2] =~= seq![f2]);
}

/// A field goes where its name says, byte for byte, and touches nothing else: `id` and `event`
/// take the place of what was there, `data` is added behind a newline to what was there, and
/// any other name is ignored.
pub proof fn law_fields_go_where_their_names_say(f: FrameView, name: Seq<u8>, value: Seq<char>)
    ensures
        ({
            let g = with_field(f, name, value);
            let is_id = name == seq![0x69u8, 0x64u8];
            let is_event = name == seq![0x65u8, 0x76u8, 0x65u8, 0x6eu8, 0x74u8];
            let is_data = name == seq![0x64u8, 0x61u8, 0x74u8, 0x61u8];
            &&& g.id == if is_id {
                Some(value)
            } else {
                f.id
            }
            &&& g.event == if is_event {
                Some(value)
            } else {
                f.event
            }
            &&& is_data && f.data.len() == 0 ==> g.data == value
            &&& is_data && f.data.len() > 0 ==> g.data == f.data + seq!['\n'] + value
            &&& !is_data ==> g.data == f.data
        }),
{
    reveal_strlit("id");
    reveal_strlit("event");
    reveal_strlit("data");
    assert(ascii("id"@) =~= seq![0x69u8, 0x64u8]);
    assert(ascii("event"@) =~= seq![0x65u8, 0x76u8, 0x65u8, 0x6eu8, 0x74u8]);
    assert(ascii("data"@) =~= seq![0x64u8, 0x61u8, 0x74u8, 0x61u8]);
    assert(f.data.push('\n') =~= f.data + seq!['\n']);
    assert(name.len() == 2 ==> name != ascii("event"@) && name != ascii("data"@));
    assert(name.len() == 4 ==> name != ascii("event"@) && name != ascii("id"@));
    assert(name.len() == 5 ==> name != ascii("data"@) && name != ascii("id"@));
}

/// A blank line dispatches the frame as it stands where it has data or an id, and nothing
/// otherwise; either way the next frame begins with nothing.
pub proof fn law_a_blank_line_ends_the_frame(f: FrameView)
    ensures
        ({
            let (p, done) = after_bytes(ParserView { pending: Seq::empty(), frame: f }, seq![LF]);
            &&& p.pending.len() == 0
            &&& p.frame.id is None && p.frame.event is None && p.frame.data.len() == 0
            &&& f.data.len() > 0 || f.id is Some ==> done == seq![f]
            &&& f.data.len() == 0 && f.id is None ==> done.len() == 0
        }),
{
    let p = ParserView { pending: Seq::<u8>::empty(), frame: f };
    assert(seq![LF].drop_last() =~= Seq::<u8>::empty());
    assert(after_bytes(p, seq![LF].drop_last()) == (p, Seq::<FrameView>::empty()));
    assert(without_cr(Seq::<u8>::empty()) =~= Seq::<u8>::empty());
    assert(Seq::<FrameView>::empty() + seq![f] =~= seq![f]);
}

/// What a line does is not changed by how it ended: one carriage return before the line feed
/// is dropped, and only one.
pub proof fn law_one_carriage_return_is_dropped(f: FrameView, line: Seq<u8>)
    requires
        !line.contains(LF),
    ensures
        ({
            let p = ParserView { pending: Seq::<u8>::empty(), frame: f };
            let (end, done) = after_bytes(p, line.push(CR).push(LF));
            &&& end.pending.len() == 0
            &&& end.frame == after_line(f, line).0
            &&& done == match after_line(f, line).1 {
                Some(g) => seq![g],
                None => Seq::<FrameView>::empty(),
            }
        }),
{
    let p = ParserView { pending: Seq::<u8>::empty(), frame: f };
    let with_cr = line.push(CR);
    assert forall|i: int| 0 <= i < with_cr.len() implies with_cr[i] != LF by {
        if i < line.len() {
            assert(with_cr[i] == line[i]);
        }
    }
    law_unfinished_lines_dispatch_nothing(p, with_cr);
    assert(p.pending + with_cr =~= with_cr);
    assert(with_cr.push(LF).drop_last() =~= with_cr);
    assert(without_cr(with_cr) =~= line);
    if let Some(g) = after_line(f, line).1 {
        assert(Seq::<FrameView>::empty() + seq![g] =~= seq![g]);
    }
    assert(Seq::<FrameView>::empty() + Seq::<FrameView>::empty() =~= Seq::<FrameView>::empty());
}

/// The space behind the colon is optional: a value that does not begin with a space reads the
/// same without one.
pub proof fn law_the_space_is_optional(f: FrameView, name: Seq<u8>, value: Seq<u8>)
    requires
        name.len() > 0,
        !name.contains(COLON),
        !name.contains(LF),
        !value.contains(LF),
        value.len() > 0 ==> value[0] != SPACE && value.last() != CR,
    ensures
        after_bytes(
            ParserView { pending: Seq::empty(), frame: f },
            (name.push(COLON) + value).push(LF),
        ) == after_bytes(
            ParserView { pending: Seq::empty(), frame: f },
            written_field(name, value),
        ),
{
    law_written_field_is_read(f, name, value);
    let p = ParserView { pending: Seq::<u8>::empty(), frame: f };
    let line = name.push(COLON) + value;
    assert forall|i: int| 0 <= i < line.len() implies line[i] != LF by {
        if i < name.len() {
            assert(line[i] == name[i]);
        } else if i >= name.len() + 1 {
            assert(line[i] == value[i - name.len() - 1]);
        }
    }
    law_unfinished_lines_dispatch_nothing(p, line);
    assert(p.pending + line =~= line);
    assert(line.push(LF).drop_last() =~= line);
    assert(line.last() != CR) by {
        if value.len() > 0 {
            assert(line.last() == value.last());
        }
    }
    lemma_index_of_byte(line, COLON);
    let at = index_of_byte(line, COLON);
    assert(line[name.len() as int] == COLON);
    if at < name.len() {
        assert(line[at] == name[at]);
    }
    assert(line[0] == name[0]);
    assert(field_name(line) =~= name);
    if value.len() > 0 {
        assert(line[at + 1] == value[0]);
    }
    assert(field_value(line) =~= value);
    assert(Seq::<FrameView>::empty() + Seq::<FrameView>::empty() =~= Seq::<FrameView>::empty());
}

/// A line without a colon is a name with an empty value.
pub proof fn law_a_name_alone_has_an_empty_value(f: FrameView, name: Seq<u8>)
    requires
        name.len() > 0,
        !name.contains(COLON),
        !name.contains(LF),
        name.last() != CR,
    ensures
        after_bytes(ParserView { pending: Seq::empty(), frame: f }, name.push(LF)) == (
            ParserView {
                pending: Seq::<u8>::empty(),
                frame: with_field(f, name, Seq::<char>::empty()),
            },
            Seq::<FrameView>::empty(),
        ),
{
    let p = ParserView { pending: Seq::<u8>::empty(), frame: f };
    law_unfinished_lines_dispatch_nothing(p, name);
    assert(p.pending + name =~= name);
    assert(name.push(LF).drop_last() =~= name);
    lemma_index_of_byte(name, COLON);
    let at = index_of_byte(name, COLON);
    if at < name.len() {
        assert(name.contains(name[at]));
    }
    assert(name.contains(name[0]));
    assert(field_name(name) =~= name);
    assert(field_value(name) =~= Seq::<u8>::empty());
    law_texts_come_through(Seq::<char>::empty());
    assert(encode_utf8(Seq::<char>::empty()) =~= Seq::<u8>::empty());
    assert(Seq::<FrameView>::empty() + Seq::<FrameView>::empty() =~= Seq::<FrameView>::empty());
}

/// A text that was encoded in UTF-8 is decoded to itself.
pub proof fn law_texts_come_through(t: Seq<char>)
    ensures
        decoded(encode_utf8(t)) == t,
{
    encode_utf8_valid_utf8(t);
    encode_utf8_decode_utf8(t);
}

/// Two data lines come out of a fresh parser as one frame, joined by a newline.
pub proof fn law_data_lines_are_joined(first: Seq<u8>, second: Seq<u8>)
    requires
        !first.contains(LF),
        decoded(first).len() > 0,
        first.len() > 0 ==> first.last() != CR,
        !second.contains(LF),
        second.len() > 0 ==> second.last() != CR,
    ensures
        ({
            let data = seq![0x64u8, 0x61u8, 0x74u8, 0x61u8];
            after_bytes(
                ParserView { pending: Seq::empty(), frame: blank_frame() },
                (written_field(data, first) + written_field(data, second)).push(LF),
            ).1 == seq![
                FrameView {
                    id: None,
                    event: None,
                    data: decoded(first) + seq!['\n'] + decoded(second),
                },
            ]
        }),
{
    let data = seq![0x64u8, 0x61u8, 0x74u8, 0x61u8];
    let fresh = ParserView { pending: Seq::<u8>::empty(), frame: blank_frame() };
    let a = written_field(data, first);
    let b = written_field(data, second);
    law_written_field_is_read(blank_frame(), data, first);
    let f1 = with_field(blank_frame(), data, decoded(first));
    law_fields_go_where_their_names_say(blank_frame(), data, decoded(first));
    law_written_field_is_read(f1, data, second);
    let f2 = with_field(f1, data, decoded(second));
    law_fields_go_where_their_names_say(f1, data, decoded(second));
    law_chunking_is_invisible(fresh, a, b);
    law_chunking_is_invisible(fresh, a + b, seq![LF]);
    law_a_blank_line_ends_the_frame(f2);
    assert((a + b).push(LF) =~= (a + b) + seq![LF]);
    let ab = after_bytes(fresh, a + b);
    assert(ab.0 == (ParserView { pending: Seq::<u8>::empty(), frame: f2 }));
    assert(ab.1 =~= Seq::<FrameView>::empty());
    assert(Seq::<FrameView>::empty() + seq![f2] =~= seq![f2]);
}

} // verus!
