//! Reassembly of the C host's log output: the host composes each log line
//! from several formatted fragments, which are joined here into whole lines
//! (split at `LINE_MAX` bytes) and handed to the logging backend with the
//! highest level seen on the line.
use vstd::prelude::*;
use vstd::utf8::{decode_utf8, valid_utf8};

verus! {

/// The longest reassembled line; longer lines are split.
pub const LINE_MAX: usize = 256;

/// The severity a line is logged at.
#[derive(Clone, Copy, Debug, PartialEq, Eq, Structural)]
pub enum LogLevel {
    Debug,
    Info,
    Warn,
    Error,
}

/// The backend level of a host log level (`log_common.h`: 0 = DEBUG,
/// 1 = INFO, 2 = WARN, 3 = ERROR, 4 = CRITICAL; anything above 2 is logged as
/// an error).
pub open spec fn spec_log_level(level: i32) -> LogLevel {
    if level == 0 {
        LogLevel::Debug
    } else if level == 1 {
        LogLevel::Info
    } else if level == 2 {
        LogLevel::Warn
    } else {
        LogLevel::Error
    }
}

/// Maps a host log level to the backend's.
pub fn log_level(level: i32) -> (r: LogLevel)
    ensures
        r == spec_log_level(level),
{
    match level {
        0 => LogLevel::Debug,
        1 => LogLevel::Info,
        2 => LogLevel::Warn,
        _ => LogLevel::Error,
    }
}

/// The level at which a completed line is emitted: none for an empty line,
/// which is dropped.
pub fn emit_level(level: i32, line: &[u8]) -> (r: Option<LogLevel>)
    ensures
        r == (if line@.len() == 0 {
            None
        } else {
            Some(spec_log_level(level))
        }),
{
    if line.len() == 0 {
        None
    } else {
        Some(log_level(level))
    }
}

/// The error of a failed UTF-8 conversion, carried through opaquely.
#[verifier::external_type_specification]
#[verifier::external_body]
pub struct ExUtf8Error(core::str::Utf8Error);

/// `core::str::from_utf8`: the text the bytes encode when they are valid
/// UTF-8, and an error exactly when they are not.
pub assume_specification[core::str::from_utf8](v: &[u8]) -> (r: Result<&str, core::str::Utf8Error>)
    ensures
        match r {
            Ok(s) => valid_utf8(v@) && s@ == decode_utf8(v@),
            Err(_) => !valid_utf8(v@),
        },
;

/// The text a completed line is logged as: the line itself when it is valid
/// UTF-8, and a placeholder otherwise.
pub fn line_text(line: &[u8]) -> (r: &str)
    ensures
        valid_utf8(line@) ==> r@ == decode_utf8(line@),
        !valid_utf8(line@) ==> r@ == "<non-utf8 log line>"@,
{
    match core::str::from_utf8(line) {
        Ok(s) => s,
        Err(_) => "<non-utf8 log line>",
    }
}

/// The reassembly state: the pending bytes and the highest level seen on
/// them.
pub type LineState = (Seq<u8>, i32);

/// One completed line: its level and bytes.
pub type LineOut = (i32, Seq<u8>);

/// One byte of output: a newline, or a full buffer, completes the pending
/// line (whose level also counts the level of this byte) and starts a new one
/// at level 0, holding the byte unless it was the newline.
pub open spec fn spec_step(st: LineState, level: i32, byte: u8) -> (LineState, Option<LineOut>) {
    let lvl = if st.1 >= level {
        st.1
    } else {
        level
    };
    if byte == 10 || st.0.len() == LINE_MAX {
        let rest = if byte == 10 {
            Seq::<u8>::empty()
        } else {
            seq![byte]
        };
        ((rest, 0i32), Some((lvl, st.0)))
    } else {
        ((st.0.push(byte), lvl), None)
    }
}

/// A fragment of output, byte by byte: the final state and the lines
/// completed on the way.
pub open spec fn spec_feed(st: LineState, level: i32, bytes: Seq<u8>) -> (LineState, Seq<LineOut>)
    decreases bytes.len(),
{
    if bytes.len() == 0 {
        (st, Seq::empty())
    } else {
        let (mid, outs) = spec_feed(st, level, bytes.drop_last());
        let (next, out) = spec_step(mid, level, bytes.last());
        match out {
            Some(line) => (next, outs.push(line)),
            None => (next, outs),
        }
    }
}

/// A completed log line.
pub struct LogLine {
    pub level: i32,
    pub text: Vec<u8>,
}

/// The completed lines as values.
pub open spec fn lines_view(lines: Seq<LogLine>) -> Seq<LineOut> {
    lines.map_values(|l: LogLine| (l.level, l.text@))
}

/// The pending line of the host's log output.
pub struct LineBuf {
    buf: Vec<u8>,
    level: i32,
}

impl LineBuf {
    /// The pending bytes and their level.
    pub closed spec fn view(&self) -> LineState {
        (self.buf@, self.level)
    }

    /// The pending line never exceeds `LINE_MAX` bytes.
    pub closed spec fn wf(&self) -> bool {
        self.buf@.len() <= LINE_MAX
    }

    /// An empty pending line at level 0.
    pub fn new() -> (r: Self)
        ensures
            r.wf(),
            r.view() == (Seq::<u8>::empty(), 0i32),
    {
        LineBuf { buf: Vec::new(), level: 0 }
    }

    /// Takes one byte of output at `level`; returns the line it completes, if
    /// any.
    pub fn feed_byte(&mut self, level: i32, byte: u8) -> (r: Option<LogLine>)
        requires
            old(self).wf(),
        ensures
            final(self).wf(),
            final(self).view() == spec_step(old(self).view(), level, byte).0,
            match r {
                Some(l) => spec_step(old(self).view(), level, byte).1 == Some(
                    (l.level, l.text@),
                ),
                None => spec_step(old(self).view(), level, byte).1 is None,
            },
    {
        if self.level < level {
            self.level = level;
        }
        if byte == 10 || self.buf.len() == LINE_MAX {
            let mut text: Vec<u8> = Vec::new();
            std::mem::swap(&mut text, &mut self.buf);
            let out = LogLine { level: self.level, text };
            self.level = 0;
            if byte != 10 {
                self.buf.push(byte);
            }
            Some(out)
        } else {
            self.buf.push(byte);
            None
        }
    }

    /// Takes one fragment of output at `level` (a partial line, or several
    /// lines); returns the lines it completes, in order.
    pub fn feed(&mut self, level: i32, bytes: &[u8]) -> (lines: Vec<LogLine>)
        requires
            old(self).wf(),
        ensures
            final(self).wf(),
            final(self).view() == spec_feed(old(self).view(), level, bytes@).0,
            lines_view(lines@) == spec_feed(old(self).view(), level, bytes@).1,
    {
        let ghost start = self.view();
        let mut lines: Vec<LogLine> = Vec::new();
        let mut i: usize = 0;
        while i < bytes.len()
            invariant
                i <= bytes@.len(),
                self.wf(),
                self.view() == spec_feed(start, level, bytes@.take(i as int)).0,
                lines_view(lines@) == spec_feed(start, level, bytes@.take(i as int)).1,
            decreases bytes@.len() - i,
        {
            proof {
                let t = bytes@.take(i + 1);
                assert(t.drop_last() == bytes@.take(i as int));
                assert(t.last() == bytes@[i as int]);
            }
            let out = self.feed_byte(level, bytes[i]);
            match out {
                Some(line) => {
                    let ghost before = lines@;
                    lines.push(line);
                    proof {
                        assert(lines@ == before.push(line));
                        assert(lines_view(lines@) == lines_view(before).push(
                            (line.level, line.text@),
                        ));
                    }
                },
                None => {},
            }
            i = i + 1;
        }
        assert(bytes@.take(bytes@.len() as int) == bytes@);
        lines
    }
}

/// What the logging backend receives of some completed lines: the non-empty
/// ones, each at its backend level.
pub open spec fn spec_emitted(lines: Seq<LineOut>) -> Seq<(LogLevel, Seq<u8>)>
    decreases lines.len(),
{
    if lines.len() == 0 {
        Seq::empty()
    } else {
        let rest = spec_emitted(lines.drop_last());
        let (level, text) = lines.last();
        if text.len() == 0 {
            rest
        } else {
            rest.push((spec_log_level(level), text))
        }
    }
}

/// A line handed to the logging backend.
pub struct EmittedLine {
    pub level: LogLevel,
    pub text: Vec<u8>,
}

/// The emitted lines as values.
pub open spec fn emitted_view(lines: Seq<EmittedLine>) -> Seq<(LogLevel, Seq<u8>)> {
    lines.map_values(|l: EmittedLine| (l.level, l.text@))
}

/// Takes one fragment the C host formatted (none for a null message) and
/// returns the lines to hand to the logging backend: the non-empty lines the
/// fragment completes, in order, each at its backend level.
pub fn log_fragment(line: &mut LineBuf, level: i32, msg: Option<&[u8]>) -> (out: Vec<
    EmittedLine,
>)
    requires
        old(line).wf(),
    ensures
        final(line).wf(),
        match msg {
            None => final(line).view() == old(line).view() && out@.len() == 0,
            Some(bytes) => {
                &&& final(line).view() == spec_feed(old(line).view(), level, bytes@).0
                &&& emitted_view(out@) == spec_emitted(
                    spec_feed(old(line).view(), level, bytes@).1,
                )
            },
        },
{
    let mut out: Vec<EmittedLine> = Vec::new();
    match msg {
        None => out,
        Some(bytes) => {
            let lines = line.feed(level, bytes);
            let ghost all = lines_view(lines@);
            let mut i: usize = 0;
            while i < lines.len()
                invariant
                    i <= lines@.len(),
                    all == lines_view(lines@),
                    emitted_view(out@) == spec_emitted(all.take(i as int)),
                decreases lines@.len() - i,
            {
                proof {
                    let t = all.take(i + 1);
                    assert(t.drop_last() == all.take(i as int));
                    assert(t.last() == (lines@[i as int].level, lines@[i as int].text@));
                }
                let l = &lines[i];
                match emit_level(l.level, l.text.as_slice()) {
                    Some(lvl) => {
                        let ghost before = out@;
                        out.push(EmittedLine { level: lvl, text: l.text.clone() });
                        proof {
                            assert(out@ == before.push(out@.last()));
                            assert(emitted_view(out@) == emitted_view(before).push(
                                (lvl, l.text@),
                            ));
                        }
                    },
                    None => {},
                }
                i = i + 1;
            }
            assert(all.take(lines@.len() as int) == all);
            out
        },
    }
}

/// The concatenated bytes of some lines.
pub open spec fn spec_joined(lines: Seq<LineOut>) -> Seq<u8>
    decreases lines.len(),
{
    if lines.len() == 0 {
        Seq::empty()
    } else {
        spec_joined(lines.drop_last()) + lines.last().1
    }
}

/// The bytes of a fragment other than newlines.
pub open spec fn spec_printable(bytes: Seq<u8>) -> Seq<u8>
    decreases bytes.len(),
{
    if bytes.len() == 0 {
        Seq::empty()
    } else if bytes.last() == 10 {
        spec_printable(bytes.drop_last())
    } else {
        spec_printable(bytes.drop_last()).push(bytes.last())
    }
}

/// Reassembly neither loses nor reorders output: the pending bytes before a
/// fragment, followed by the fragment without its newlines, are exactly the
/// lines it completes followed by the pending bytes after it. And every line
/// completed holds at most `LINE_MAX` bytes.
pub proof fn law_feed_keeps_every_byte(st: LineState, level: i32, bytes: Seq<u8>)
    requires
        st.0.len() <= LINE_MAX,
    ensures
        ({
            let (next, outs) = spec_feed(st, level, bytes);
            &&& st.0 + spec_printable(bytes) == spec_joined(outs) + next.0
            &&& next.0.len() <= LINE_MAX
            &&& forall|k: int| 0 <= k < outs.len() ==> (#[trigger] outs[k]).1.len() <= LINE_MAX
        }),
    decreases bytes.len(),
{
    if bytes.len() == 0 {
        assert(st.0 + Seq::<u8>::empty() =~= st.0);
        assert(spec_joined(Seq::<LineOut>::empty()) + st.0 =~= st.0);
    } else {
        let init = bytes.drop_last();
        let b = bytes.last();
        law_feed_keeps_every_byte(st, level, init);
        let (mid, outs) = spec_feed(st, level, init);
        let (next, out) = spec_step(mid, level, b);
        let p0 = spec_printable(init);
        if b == 10 || mid.0.len() == LINE_MAX {
            let line = out.unwrap();
            let outs2 = outs.push(line);
            assert(outs2.drop_last() == outs);
            assert(spec_joined(outs2) == spec_joined(outs) + mid.0);
            if b == 10 {
                assert(spec_printable(bytes) == p0);
                assert(spec_joined(outs2) + next.0 =~= spec_joined(outs) + mid.0);
            } else {
                assert(spec_printable(bytes) == p0.push(b));
                assert(st.0 + p0.push(b) =~= (st.0 + p0).push(b));
                assert(spec_joined(outs2) + next.0 =~= (spec_joined(outs) + mid.0).push(b));
            }
            assert forall|k: int| 0 <= k < outs2.len() implies (#[trigger] outs2[k]).1.len()
                <= LINE_MAX by {
                if k < outs.len() {
                    assert(outs2[k] == outs[k]);
                }
            }
        } else {
            assert(spec_printable(bytes) == p0.push(b));
            assert(st.0 + p0.push(b) =~= (st.0 + p0).push(b));
            assert(spec_joined(outs) + mid.0.push(b) =~= (spec_joined(outs) + mid.0).push(b));
        }
    }
}

/// The larger of two levels.
pub open spec fn level_max(a: i32, b: i32) -> i32 {
    if a >= b {
        a
    } else {
        b
    }
}

/// Bytes without a newline.
pub open spec fn no_newline(s: Seq<u8>) -> bool {
    forall|i: int| 0 <= i < s.len() ==> #[trigger] s[i] != 10
}

/// Output splits anywhere within one call: feeding `a` then `b` is feeding
/// `a + b`, the lines of `a` coming first.
pub proof fn law_feed_concat(st: LineState, level: i32, a: Seq<u8>, b: Seq<u8>)
    ensures
        ({
            let (mid, o1) = spec_feed(st, level, a);
            let (next, o2) = spec_feed(mid, level, b);
            spec_feed(st, level, a + b) == (next, o1 + o2)
        }),
    decreases b.len(),
{
    if b.len() == 0 {
        assert(a + b =~= a);
        let (mid, o1) = spec_feed(st, level, a);
        assert(o1 + Seq::<LineOut>::empty() =~= o1);
    } else {
        law_feed_concat(st, level, a, b.drop_last());
        assert((a + b).drop_last() =~= a + b.drop_last());
        assert((a + b).last() == b.last());
        let (mid, o1) = spec_feed(st, level, a);
        let (m2, o2) = spec_feed(mid, level, b.drop_last());
        let (next, out) = spec_step(m2, level, b.last());
        match out {
            Some(line) => {
                assert((o1 + o2).push(line) =~= o1 + o2.push(line));
            },
            None => {},
        }
    }
}

/// A piece of a line that fits: bytes without a newline that, with the
/// pending bytes, stay within `LINE_MAX` complete no line; they join the
/// pending bytes, whose level rises to the call's level.
pub proof fn law_partial_line_waits(p: Seq<u8>, lv: i32, level: i32, s: Seq<u8>)
    requires
        no_newline(s),
        p.len() + s.len() <= LINE_MAX,
    ensures
        spec_feed((p, lv), level, s) == ((p + s, if s.len() == 0 {
            lv
        } else {
            level_max(lv, level)
        }), Seq::<LineOut>::empty()),
    decreases s.len(),
{
    if s.len() == 0 {
        assert(p + s =~= p);
    } else {
        let t = s.drop_last();
        assert forall|i: int| 0 <= i < t.len() implies #[trigger] t[i] != 10 by {
            assert(t[i] == s[i]);
        }
        law_partial_line_waits(p, lv, level, t);
        assert(s.last() == s[s.len() - 1]);
        assert((p + t).push(s.last()) =~= p + s);
    }
}

/// A line that fits is emitted whole when its newline arrives: the pending
/// bytes and the bytes before the newline form one line, at the highest
/// level of the calls that contributed to it, and nothing stays pending.
pub proof fn law_short_line_emitted(p: Seq<u8>, lv: i32, level: i32, s: Seq<u8>)
    requires
        no_newline(s),
        p.len() + s.len() <= LINE_MAX,
    ensures
        spec_feed((p, lv), level, s.push(10)) == ((Seq::<u8>::empty(), 0i32), seq![
            (level_max(lv, level), p + s),
        ]),
{
    law_partial_line_waits(p, lv, level, s);
    assert(s.push(10).drop_last() =~= s);
    assert(Seq::<LineOut>::empty().push((level_max(lv, level), p + s)) =~= seq![
        (level_max(lv, level), p + s),
    ]);
}

/// A full line is cut: with `LINE_MAX` bytes pending, any byte but a newline
/// completes them as a line and starts the next one, at level 0.
pub proof fn law_full_line_cut(p: Seq<u8>, lv: i32, level: i32, b: u8)
    requires
        p.len() == LINE_MAX,
        b != 10,
    ensures
        spec_feed((p, lv), level, seq![b]) == ((seq![b], 0i32), seq![(level_max(lv, level), p)]),
{
    assert(seq![b].drop_last() =~= Seq::<u8>::empty());
    assert(seq![b].last() == b);
    assert(spec_feed((p, lv), level, Seq::<u8>::empty()) == ((p, lv), Seq::<LineOut>::empty()));
    assert(spec_step((p, lv), level, b) == ((seq![b], 0i32), Some((level_max(lv, level), p))));
    assert(Seq::<LineOut>::empty().push((level_max(lv, level), p)) =~= seq![(level_max(lv, level), p)]);
}

/// The texts of completed lines.
pub open spec fn line_texts(outs: Seq<LineOut>) -> Seq<Seq<u8>> {
    outs.map_values(|o: LineOut| o.1)
}

/// A line's bytes cut into consecutive chunks of `LINE_MAX` bytes, the last
/// one holding the rest (the whole line when it fits).
pub open spec fn spec_chunks(s: Seq<u8>) -> Seq<Seq<u8>>
    decreases s.len(),
{
    if s.len() <= LINE_MAX {
        seq![s]
    } else {
        seq![s.take(LINE_MAX as int)] + spec_chunks(s.skip(LINE_MAX as int))
    }
}

/// Every line is emitted in order when its newline arrives, cut into chunks
/// of at most `LINE_MAX` bytes: the pending bytes and the bytes before the
/// newline give exactly the chunks of their concatenation, and nothing stays
/// pending. (The level of each chunk is that of `law_short_line_emitted` for
/// a line that fits; chunks after a cut start again from level 0.)
pub proof fn law_line_emitted_in_chunks(p: Seq<u8>, lv: i32, level: i32, s: Seq<u8>)
    requires
        no_newline(s),
        p.len() <= LINE_MAX,
    ensures
        spec_feed((p, lv), level, s.push(10)).0 == (Seq::<u8>::empty(), 0i32),
        line_texts(spec_feed((p, lv), level, s.push(10)).1) == spec_chunks(p + s),
    decreases p.len() + s.len(),
{
    if p.len() + s.len() <= LINE_MAX {
        law_short_line_emitted(p, lv, level, s);
        let outs = seq![(level_max(lv, level), p + s)];
        assert(line_texts(outs) =~= seq![p + s]);
    } else {
        let k = (LINE_MAX - p.len()) as int;
        let s1 = s.take(k);
        let s2 = s.skip(k);
        let b = s2[0];
        let s3 = s2.skip(1);
        assert forall|i: int| 0 <= i < s1.len() implies #[trigger] s1[i] != 10 by {
            assert(s1[i] == s[i]);
        }
        assert forall|i: int| 0 <= i < s3.len() implies #[trigger] s3[i] != 10 by {
            assert(s3[i] == s[i + k + 1]);
        }
        assert(b == s[k]);
        law_partial_line_waits(p, lv, level, s1);
        let lv1 = if s1.len() == 0 {
            lv
        } else {
            level_max(lv, level)
        };
        law_full_line_cut(p + s1, lv1, level, b);
        law_line_emitted_in_chunks(seq![b], 0i32, level, s3);
        // s.push(10) == s1 + (seq![b] + s3.push(10))
        let tail = seq![b] + s3.push(10);
        assert(s.push(10) =~= s1 + tail);
        law_feed_concat((p, lv), level, s1, tail);
        law_feed_concat((p + s1, lv1), level, seq![b], s3.push(10));
        let o_cut = seq![(level_max(lv1, level), p + s1)];
        let (fin, o_rest) = spec_feed((seq![b], 0i32), level, s3.push(10));
        assert(spec_feed((p, lv), level, s.push(10)) == (fin, Seq::<LineOut>::empty() + (o_cut
            + o_rest)));
        assert(Seq::<LineOut>::empty() + (o_cut + o_rest) =~= o_cut + o_rest);
        assert(line_texts(o_cut + o_rest) =~= line_texts(o_cut) + line_texts(o_rest));
        assert(line_texts(o_cut) =~= seq![p + s1]);
        let ps = p + s;
        assert(ps.take(LINE_MAX as int) =~= p + s1);
        assert(ps.skip(LINE_MAX as int) =~= seq![b] + s3);
    }
}

/// Where lines break does not depend on levels: from the same pending
/// bytes, whatever their level and the call's, a fragment leaves the same
/// pending bytes and completes lines with the same texts. (So a run of calls
/// breaks its output into lines as one call with all their bytes would, by
/// `law_feed_concat`.)
pub proof fn law_texts_ignore_levels(p: Seq<u8>, lv1: i32, lv2: i32, l1: i32, l2: i32, s: Seq<u8>)
    ensures
        spec_feed((p, lv1), l1, s).0.0 == spec_feed((p, lv2), l2, s).0.0,
        line_texts(spec_feed((p, lv1), l1, s).1) == line_texts(spec_feed((p, lv2), l2, s).1),
    decreases s.len(),
{
    if s.len() > 0 {
        law_texts_ignore_levels(p, lv1, lv2, l1, l2, s.drop_last());
        let (m1, o1) = spec_feed((p, lv1), l1, s.drop_last());
        let (m2, o2) = spec_feed((p, lv2), l2, s.drop_last());
        let (n1, x1) = spec_step(m1, l1, s.last());
        let (n2, x2) = spec_step(m2, l2, s.last());
        if x1 is Some {
            assert(line_texts(o1.push(x1.unwrap())) =~= line_texts(o1).push(x1.unwrap().1));
            assert(line_texts(o2.push(x2.unwrap())) =~= line_texts(o2).push(x2.unwrap().1));
        }
    }
}

/// A run of `log_fragment` calls, each a level and a message (none for a
/// null message, which changes nothing): the final state and the lines
/// completed, in order.
pub open spec fn spec_log_calls(st: LineState, calls: Seq<(i32, Option<Seq<u8>>)>) -> (
    LineState,
    Seq<LineOut>,
)
    decreases calls.len(),
{
    if calls.len() == 0 {
        (st, Seq::empty())
    } else {
        let (mid, outs) = spec_log_calls(st, calls.drop_last());
        match calls.last().1 {
            None => (mid, outs),
            Some(bytes) => {
                let (next, more) = spec_feed(mid, calls.last().0, bytes);
                (next, outs + more)
            },
        }
    }
}

/// All the bytes of a run of calls, in order.
pub open spec fn spec_log_bytes(calls: Seq<(i32, Option<Seq<u8>>)>) -> Seq<u8>
    decreases calls.len(),
{
    if calls.len() == 0 {
        Seq::empty()
    } else {
        spec_log_bytes(calls.drop_last()) + match calls.last().1 {
            None => Seq::<u8>::empty(),
            Some(bytes) => bytes,
        }
    }
}

/// A run of calls breaks its output into lines exactly as one fragment of
/// all their bytes would: the same lines, in order, and the same bytes left
/// pending. (So the lines of a run are the newline-terminated segments of
/// its bytes, each cut into chunks of at most `LINE_MAX` bytes, by
/// `law_line_emitted_in_chunks`.)
pub proof fn law_calls_break_as_one_fragment(p: Seq<u8>, lv: i32, calls: Seq<(i32, Option<Seq<u8>>)>)
    ensures
        spec_log_calls((p, lv), calls).0.0 == spec_feed((p, lv), 0, spec_log_bytes(calls)).0.0,
        line_texts(spec_log_calls((p, lv), calls).1) == line_texts(
            spec_feed((p, lv), 0, spec_log_bytes(calls)).1,
        ),
    decreases calls.len(),
{
    if calls.len() == 0 {
        assert(line_texts(Seq::<LineOut>::empty()) =~= Seq::<Seq<u8>>::empty());
    } else {
        let init = calls.drop_last();
        law_calls_break_as_one_fragment(p, lv, init);
        let (mid, outs) = spec_log_calls((p, lv), init);
        let a = spec_log_bytes(init);
        let (fm, fo) = spec_feed((p, lv), 0, a);
        match calls.last().1 {
            None => {
                assert(a + Seq::<u8>::empty() =~= a);
            },
            Some(b) => {
                let l = calls.last().0;
                let (next, more) = spec_feed(mid, l, b);
                law_texts_ignore_levels(mid.0, mid.1, fm.1, l, 0, b);
                assert(mid.0 == fm.0);
                assert((mid.0, fm.1) == fm);
                law_feed_concat((p, lv), 0, a, b);
                let (fn2, fo2) = spec_feed(fm, 0, b);
                assert(line_texts(outs + more) =~= line_texts(outs) + line_texts(more));
                assert(line_texts(fo + fo2) =~= line_texts(fo) + line_texts(fo2));
            },
        }
    }
}

} // verus!
