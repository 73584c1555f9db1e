//! Streaming Markdown: source that is complete is rendered and queued line by line, while the
//! last block stays mutable, and the source itself is kept for the finished transcript.

use vstd::prelude::*;

use crate::spans;
use crate::spans::Span;
#[allow(unused_imports)]
use crate::spans::SpanView;
use crate::spans::Tone;
use crate::text;

verus! {

/// The state of a stream. `stable_source_end` counts characters of the source: what stands
/// before it is rendered into `rendered_lines`, what stands behind it into
/// `active_tail_lines`. The queue holds lines that were rendered and are not emitted yet.
#[derive(Debug)]
pub struct StreamCore {
    pub width: Option<usize>,
    pub raw_source: String,
    pub stable_source_end: usize,
    pub rendered_lines: Vec<Vec<Span>>,
    pub queue: Vec<Vec<Span>>,
    pub enqueued_len: usize,
    pub emitted_len: usize,
    pub active_tail_lines: Vec<Vec<Span>>,
}

/// A stream by its texts.
#[verifier::ext_equal]
pub ghost struct StreamView {
    pub width: Option<usize>,
    pub raw_source: Seq<char>,
    pub stable_source_end: int,
    pub rendered_lines: Seq<Seq<SpanView>>,
    pub queue: Seq<Seq<SpanView>>,
    pub enqueued_len: int,
    pub emitted_len: int,
    pub active_tail_lines: Seq<Seq<SpanView>>,
}

impl View for StreamCore {
    type V = StreamView;

    open spec fn view(&self) -> StreamView {
        StreamView {
            width: self.width,
            raw_source: self.raw_source@,
            stable_source_end: self.stable_source_end as int,
            rendered_lines: spans::lines_view(self.rendered_lines@),
            queue: spans::lines_view(self.queue@),
            enqueued_len: self.enqueued_len as int,
            emitted_len: self.emitted_len as int,
            active_tail_lines: spans::lines_view(self.active_tail_lines@),
        }
    }
}

/// A stream that nothing came in on yet.
pub open spec fn empty_stream(width: Option<usize>) -> StreamView {
    StreamView {
        width,
        raw_source: Seq::empty(),
        stable_source_end: 0,
        rendered_lines: Seq::empty(),
        queue: Seq::empty(),
        enqueued_len: 0,
        emitted_len: 0,
        active_tail_lines: Seq::empty(),
    }
}

/// The larger of two numbers.
pub open spec fn larger(a: int, b: int) -> int {
    if a > b {
        a
    } else {
        b
    }
}

/// How far lines are queued once all that are rendered are.
pub open spec fn target(s: StreamView) -> int {
    larger(s.rendered_lines.len() as int, s.emitted_len)
}

/// A stream with all rendered lines queued that were not emitted.
pub open spec fn queue_rebuilt(s: StreamView) -> StreamView {
    StreamView {
        queue: if s.emitted_len < target(s) {
            s.rendered_lines.subrange(s.emitted_len, target(s))
        } else {
            Seq::empty()
        },
        enqueued_len: target(s),
        ..s
    }
}

/// A stream with its rendered lines queued that were not; the queue is rebuilt where fewer
/// lines are rendered than were queued.
pub open spec fn queue_synced(s: StreamView) -> StreamView {
    if target(s) < s.enqueued_len {
        queue_rebuilt(s)
    } else if target(s) == s.enqueued_len {
        s
    } else {
        StreamView {
            queue: s.queue + s.rendered_lines.subrange(s.enqueued_len, target(s)),
            enqueued_len: target(s),
            ..s
        }
    }
}

/// Whether lines were queued when a stream was synced.
pub open spec fn sync_queues(s: StreamView) -> bool {
    if target(s) < s.enqueued_len {
        queue_rebuilt(s).queue.len() > 0
    } else {
        target(s) > s.enqueued_len
    }
}

/// A stream with its first lines emitted.
pub open spec fn emitted(s: StreamView, n: int) -> StreamView {
    StreamView { queue: s.queue.skip(n), emitted_len: s.emitted_len + n, ..s }
}

/// Whether a delta may commit source: source is committed only up to a line break.
pub open spec fn commits(delta: Seq<char>) -> bool {
    delta.contains('\n')
}

/// The lines of the stable source: none while there is none.
pub open spec fn stable_lines_of(s: StreamView, rendered: Seq<Seq<SpanView>>) -> Seq<
    Seq<SpanView>,
> {
    if s.stable_source_end == 0 {
        Seq::empty()
    } else {
        rendered
    }
}

/// The lines of the tail: none where the stable source is all there is.
pub open spec fn tail_lines_of(s: StreamView, rendered: Seq<Seq<SpanView>>) -> Seq<Seq<SpanView>> {
    if s.stable_source_end >= s.raw_source.len() {
        Seq::empty()
    } else {
        rendered
    }
}

/// A stream for another width, for which its stable source and its tail were rendered anew.
/// Emitted lines stay emitted. Where lines were waiting, at least one still is.
pub open spec fn resized(
    s: StreamView,
    width: Option<usize>,
    rendered_stable: Seq<Seq<SpanView>>,
    rendered_tail: Seq<Seq<SpanView>>,
) -> StreamView {
    let stable = stable_lines_of(s, rendered_stable);
    let tail = tail_lines_of(s, rendered_tail);
    let pending = s.queue.len() > 0;
    let kept = if s.emitted_len < stable.len() {
        s.emitted_len
    } else {
        stable.len() as int
    };
    let emitted_len = if pending && kept == stable.len() && kept > 0 {
        kept - 1
    } else {
        kept
    };
    let rendered = StreamView {
        width,
        rendered_lines: stable,
        active_tail_lines: tail,
        emitted_len,
        queue: Seq::empty(),
        ..s
    };
    if emitted_len > 0 && !pending {
        StreamView { enqueued_len: stable.len() as int, ..rendered }
    } else {
        queue_rebuilt(rendered)
    }
}

/// A stream with more of its source rendered. The stable part is rendered anew only where it
/// grew.
pub open spec fn synced(
    s: StreamView,
    stable_end: int,
    stable: Seq<Seq<SpanView>>,
    tail: Seq<Seq<SpanView>>,
) -> StreamView {
    let grown = if stable_end > s.stable_source_end {
        queue_synced(StreamView { stable_source_end: stable_end, rendered_lines: stable, ..s })
    } else {
        s
    };
    StreamView { active_tail_lines: tail_lines_of(grown, tail), ..grown }
}

/// How far the source is stable once it is known to be up to `stable_end`.
pub open spec fn stable_until(s: StreamView, stable_end: int) -> int {
    larger(stable_end, s.stable_source_end)
}

/// Whether a delta may commit source.
pub fn delta_commits(delta: &str) -> (r: bool)
    ensures
        r == commits(delta@),
{
    let chars = text::chars_of(delta);
    let mut i: usize = 0;
    while i < chars.len()
        invariant
            i <= chars.len(),
            chars@ == delta@,
            forall|k: int| 0 <= k < i ==> chars@[k] != '\n',
        decreases chars.len() - i,
    {
        if chars[i] == '\n' {
            assert(delta@[i as int] == '\n');
            return true;
        }
        i = i + 1;
    }
    false
}

impl StreamCore {
    /// Whether what was emitted and what is queued were queued, the stable source is part of the
    /// source, and nothing was queued without a stable source.
    pub open spec fn wf(&self) -> bool {
        &&& self.emitted_len + self.queue@.len() <= self.enqueued_len
        &&& self.stable_source_end <= self.raw_source@.len()
        &&& self.stable_source_end == 0 ==> self.enqueued_len == 0
    }

    /// A stream without source.
    pub fn new(width: Option<usize>) -> (r: Self)
        ensures
            r.wf(),
            r@ == empty_stream(width),
    {
        let r = StreamCore {
            width,
            raw_source: String::new(),
            stable_source_end: 0,
            rendered_lines: Vec::new(),
            queue: Vec::new(),
            enqueued_len: 0,
            emitted_len: 0,
            active_tail_lines: Vec::new(),
        };
        assert(spans::lines_view(r.queue@) =~= Seq::<Seq<SpanView>>::empty());
        assert(r.raw_source@ =~= Seq::<char>::empty());
        r
    }

    /// Takes a delta in, with the source that is complete with it, if any is. Says whether source
    /// was committed, so that it is to be rendered.
    pub fn push_source(&mut self, delta: &str, complete: Option<&str>) -> (r: bool)
        requires
            old(self).wf(),
        ensures
            final(self).wf(),
            r == (commits(delta@) && complete is Some),
            final(self)@ == (if r {
                StreamView { raw_source: old(self)@.raw_source + complete->0@, ..old(self)@ }
            } else {
                old(self)@
            }),
    {
        if !delta_commits(delta) {
            return false;
        }
        match complete {
            Some(source) => {
                self.raw_source.push_str(source);
                true
            },
            None => false,
        }
    }

    /// The source to be rendered as the stable part, once it is known to be stable up to
    /// `stable_end`; none while nothing is.
    pub fn stable_source(&self, stable_end: usize) -> (r: Option<String>)
        requires
            self.wf(),
            stable_end <= self.raw_source@.len(),
        ensures
            ({
                let end = stable_until(self@, stable_end as int);
                text::option_view(r) == (if end == 0 {
                    None
                } else {
                    Some(self.raw_source@.take(end))
                })
            }),
    {
        let end: usize = if stable_end > self.stable_source_end {
            stable_end
        } else {
            self.stable_source_end
        };
        if end == 0 {
            return None;
        }
        let chars = text::chars_of(self.raw_source.as_str());
        let r = text::string_of_range(chars.as_slice(), 0, end);
        assert(r@ =~= self.raw_source@.take(end as int));
        Some(r)
    }

    /// The source to be rendered as the tail, once it is known to be stable up to `stable_end`;
    /// none where all of it is.
    pub fn tail_source(&self, stable_end: usize) -> (r: Option<String>)
        requires
            self.wf(),
            stable_end <= self.raw_source@.len(),
        ensures
            ({
                let end = stable_until(self@, stable_end as int);
                text::option_view(r) == (if end >= self.raw_source@.len() {
                    None
                } else {
                    Some(self.raw_source@.skip(end))
                })
            }),
    {
        let end: usize = if stable_end > self.stable_source_end {
            stable_end
        } else {
            self.stable_source_end
        };
        let chars = text::chars_of(self.raw_source.as_str());
        if end >= chars.len() {
            return None;
        }
        let r = text::string_of_range(chars.as_slice(), end, chars.len());
        assert(r@ =~= self.raw_source@.skip(end as int));
        Some(r)
    }

    fn rebuild_queue_from_render(&mut self)
        requires
            old(self).stable_source_end <= old(self).raw_source@.len(),
            old(self).stable_source_end == 0 ==> old(self).rendered_lines@.len() == 0
                && old(self).emitted_len == 0,
        ensures
            final(self).wf(),
            final(self)@ == queue_rebuilt(old(self)@),
    {
        let rendered = self.rendered_lines.len();
        let target: usize = if rendered > self.emitted_len {
            rendered
        } else {
            self.emitted_len
        };
        let mut queue: Vec<Vec<Span>> = Vec::new();
        assert(spans::lines_view(queue@) =~= Seq::<Seq<SpanView>>::empty());
        if self.emitted_len < target {
            spans::copy_lines(&self.rendered_lines, self.emitted_len, target, &mut queue);
        }
        self.queue = queue;
        self.enqueued_len = target;
        assert(spans::lines_view(self.queue@).len() == self.queue@.len());
        assert(self@ =~= queue_rebuilt(old(self)@));
    }

    fn sync_queue_to_render(&mut self) -> (r: bool)
        requires
            old(self).wf(),
            old(self).stable_source_end > 0,
        ensures
            final(self).wf(),
            final(self)@ == queue_synced(old(self)@),
            r == sync_queues(old(self)@),
    {
        let rendered = self.rendered_lines.len();
        let target: usize = if rendered > self.emitted_len {
            rendered
        } else {
            self.emitted_len
        };
        if target < self.enqueued_len {
            self.rebuild_queue_from_render();
            assert(self@.queue.len() == self.queue@.len());
            return self.queue.len() > 0;
        }
        if target == self.enqueued_len {
            return false;
        }
        let ghost before = self.queue@;
        spans::copy_lines(&self.rendered_lines, self.enqueued_len, target, &mut self.queue);
        assert(spans::lines_view(self.queue@).len() == self.queue@.len());
        assert(spans::lines_view(before).len() == before.len());
        self.enqueued_len = target;
        assert(self@ =~= queue_synced(old(self)@));
        true
    }

    /// Takes over what the source renders to: the stable part, up to a position, and the tail
    /// behind it, of which there is none where all the source is stable. Says whether lines were queued.
    pub fn sync_from_source(
        &mut self,
        stable_end: usize,
        stable_lines: Vec<Vec<Span>>,
        tail_lines: Vec<Vec<Span>>,
    ) -> (r: bool)
        requires
            old(self).wf(),
            stable_end <= old(self).raw_source@.len(),
        ensures
            final(self).wf(),
            final(self)@ == synced(
                old(self)@,
                stable_end as int,
                spans::lines_view(stable_lines@),
                spans::lines_view(tail_lines@),
            ),
            r == (stable_end > old(self).stable_source_end && sync_queues(
                StreamView {
                    stable_source_end: stable_end as int,
                    rendered_lines: spans::lines_view(stable_lines@),
                    ..old(self)@
                },
            )),
    {
        let enqueued = if stable_end > self.stable_source_end {
            self.stable_source_end = stable_end;
            self.rendered_lines = stable_lines;
            self.sync_queue_to_render()
        } else {
            false
        };
        self.take_tail(tail_lines);
        enqueued
    }

    fn take_tail(&mut self, tail_lines: Vec<Vec<Span>>)
        requires
            old(self).wf(),
        ensures
            final(self).wf(),
            final(self)@ == (StreamView {
                active_tail_lines: tail_lines_of(old(self)@, spans::lines_view(tail_lines@)),
                ..old(self)@
            }),
    {
        if self.stable_source_end >= text::chars_of(self.raw_source.as_str()).len() {
            self.active_tail_lines = Vec::new();
            assert(self@.active_tail_lines =~= Seq::<Seq<SpanView>>::empty());
        } else {
            self.active_tail_lines = tail_lines;
        }
    }

    /// Ends the stream with what is left of its source: the lines of the whole source that
    /// were not emitted.
    pub fn finalize_remaining(&mut self, remainder: &str, rendered: &Vec<Vec<Span>>) -> (r: Vec<
        Vec<Span>,
    >)
        requires
            old(self).wf(),
        ensures
            final(self).wf(),
            final(self)@ == (StreamView {
                raw_source: old(self)@.raw_source + remainder@,
                ..old(self)@
            }),
            spans::lines_view(r@) == if old(self).emitted_len >= rendered@.len() {
                Seq::empty()
            } else {
                spans::lines_view(rendered@).skip(old(self).emitted_len as int)
            },
    {
        self.raw_source.push_str(remainder);
        let mut out: Vec<Vec<Span>> = Vec::new();
        assert(spans::lines_view(out@) =~= Seq::<Seq<SpanView>>::empty());
        if self.emitted_len >= rendered.len() {
            return out;
        }
        spans::copy_lines(rendered, self.emitted_len, rendered.len(), &mut out);
        assert(spans::lines_view(out@) =~= spans::lines_view(rendered@).skip(
            self.emitted_len as int,
        ));
        out
    }

    /// Emits up to a number of queued lines.
    pub fn tick_batch(&mut self, max_lines: usize) -> (r: Vec<Vec<Span>>)
        requires
            old(self).wf(),
        ensures
            final(self).wf(),
            ({
                let n = if max_lines < old(self)@.queue.len() {
                    max_lines as int
                } else {
                    old(self)@.queue.len() as int
                };
                &&& spans::lines_view(r@) == old(self)@.queue.take(n)
                &&& final(self)@ == emitted(old(self)@, n)
            }),
    {
        let ghost queued = spans::lines_view(self.queue@);
        let n: usize = if max_lines < self.queue.len() {
            max_lines
        } else {
            self.queue.len()
        };
        let mut step: Vec<Vec<Span>> = Vec::new();
        std::mem::swap(&mut step, &mut self.queue);
        let rest = step.split_off(n);
        assert(spans::lines_view(rest@) =~= queued.skip(n as int));
        assert(spans::lines_view(step@) =~= queued.take(n as int));
        self.queue = rest;
        self.emitted_len = self.emitted_len + n;
        assert(self@ =~= emitted(old(self)@, n as int));
        step
    }

    /// Emits a queued line.
    pub fn tick(&mut self) -> (r: Vec<Vec<Span>>)
        requires
            old(self).wf(),
        ensures
            final(self).wf(),
            ({
                let n = if old(self)@.queue.len() > 0 {
                    1int
                } else {
                    0int
                };
                &&& spans::lines_view(r@) == old(self)@.queue.take(n)
                &&& final(self)@ == emitted(old(self)@, n)
            }),
    {
        self.tick_batch(1)
    }

    /// The stable source, once all its lines are emitted.
    pub fn emitted_stable_source(&self) -> (r: Option<String>)
        requires
            self.wf(),
        ensures
            text::option_view(r) == if self.stable_source_end > 0 && self.emitted_len
                >= self.rendered_lines@.len() {
                Some(self.raw_source@.take(self.stable_source_end as int))
            } else {
                None
            },
    {
        if self.stable_source_end > 0 && self.emitted_len >= self.rendered_lines.len() {
            let chars = text::chars_of(self.raw_source.as_str());
            let r = text::string_of_range(chars.as_slice(), 0, self.stable_source_end);
            assert(r@ =~= self.raw_source@.take(self.stable_source_end as int));
            Some(r)
        } else {
            None
        }
    }

    /// Whether nothing is queued.
    pub fn is_idle(&self) -> (r: bool)
        ensures
            r == (self.queue@.len() == 0),
    {
        self.queue.len() == 0
    }

    /// Takes over another width, for which the stable source and the tail were rendered.
    pub fn set_width(
        &mut self,
        width: Option<usize>,
        stable_lines: Vec<Vec<Span>>,
        tail_lines: Vec<Vec<Span>>,
    )
        requires
            old(self).wf(),
        ensures
            final(self).wf(),
            final(self)@ == if old(self).width == width {
                old(self)@
            } else {
                resized(
                    old(self)@,
                    width,
                    spans::lines_view(stable_lines@),
                    spans::lines_view(tail_lines@),
                )
            },
    {
        if self.width == width {
            return;
        }
        assert(self@.queue.len() == self.queue@.len());
        self.width = width;
        let pending = self.queue.len() > 0;
        if self.stable_source_end == 0 {
            self.rendered_lines = Vec::new();
            assert(self@.rendered_lines =~= Seq::<Seq<SpanView>>::empty());
        } else {
            self.rendered_lines = stable_lines;
        }
        self.take_tail(tail_lines);
        let rendered = self.rendered_lines.len();
        assert(self@.rendered_lines.len() == rendered);
        if self.emitted_len > rendered {
            self.emitted_len = rendered;
        }
        if pending && self.emitted_len == rendered && self.emitted_len > 0 {
            self.emitted_len = self.emitted_len - 1;
        }
        self.queue = Vec::new();
        assert(self@.queue =~= Seq::<Seq<SpanView>>::empty());
        if self.emitted_len > 0 && !pending {
            self.enqueued_len = rendered;
            return;
        }
        self.rebuild_queue_from_render();
    }

    /// Drops what is queued.
    pub fn clear_queue(&mut self)
        requires
            old(self).wf(),
        ensures
            final(self).wf(),
            final(self)@ == (StreamView {
                queue: Seq::empty(),
                enqueued_len: old(self)@.emitted_len,
                ..old(self)@
            }),
    {
        self.queue = Vec::new();
        self.enqueued_len = self.emitted_len;
        assert(self@.queue =~= Seq::<Seq<SpanView>>::empty());
    }

    /// Forgets everything but the width.
    pub fn reset(&mut self)
        ensures
            final(self).wf(),
            final(self)@ == empty_stream(old(self).width),
    {
        let width = self.width;
        *self = StreamCore::new(width);
    }
}

// ---- cells of a message ----

/// Lines of a message that are shown together.
#[derive(Debug)]
pub struct MessageCell {
    pub lines: Vec<Vec<Span>>,
    pub is_first: bool,
    pub markdown_source: Option<String>,
}

/// The stream of a message.
#[derive(Debug)]
pub struct StreamController {
    pub core: StreamCore,
    pub header_emitted: bool,
}

/// Whether a cell holds lines with a source; there is none without lines.
pub open spec fn is_message_cell(
    cell: Option<MessageCell>,
    lines: Seq<Seq<SpanView>>,
    is_first: bool,
    source: Option<Seq<char>>,
) -> bool {
    if lines.len() == 0 {
        cell is None
    } else {
        &&& cell matches Some(c)
        &&& spans::lines_view(c.lines@) == lines
        &&& c.is_first == is_first
        &&& text::option_view(c.markdown_source) == source
    }
}

/// The stable source that a cell carries once all its lines are emitted.
pub open spec fn stable_snapshot(s: StreamView) -> Option<Seq<char>> {
    if s.stable_source_end > 0 && s.emitted_len >= s.rendered_lines.len() {
        Some(s.raw_source.take(s.stable_source_end))
    } else {
        None
    }
}

impl StreamController {
    /// Whether the stream is sound.
    pub open spec fn wf(&self) -> bool {
        self.core.wf()
    }

    /// A stream without source.
    pub fn new(width: Option<usize>) -> (r: Self)
        ensures
            r.wf() && !r.header_emitted,
            r.core@ == empty_stream(width),
    {
        StreamController { core: StreamCore::new(width), header_emitted: false }
    }

    fn emit(&mut self, lines: Vec<Vec<Span>>, markdown_source: Option<String>) -> (r: Option<
        MessageCell,
    >)
        ensures
            final(self).core == old(self).core,
            final(self).header_emitted == (old(self).header_emitted || lines@.len() > 0),
            is_message_cell(
                r,
                spans::lines_view(lines@),
                !old(self).header_emitted,
                text::option_view(markdown_source),
            ),
    {
        assert(spans::lines_view(lines@).len() == lines@.len());
        if lines.len() == 0 {
            return None;
        }
        let is_first = !self.header_emitted;
        self.header_emitted = true;
        Some(MessageCell { lines, is_first, markdown_source })
    }

    /// The mutable tail of the message. It waits for what is queued before it.
    pub fn active_tail_cell(&self) -> (r: Option<MessageCell>)
        ensures
            if self.core@.queue.len() > 0 {
                r is None
            } else {
                is_message_cell(r, self.core@.active_tail_lines, !self.header_emitted, None)
            },
    {
        assert(self.core@.queue.len() == self.core.queue@.len());
        assert(self.core@.active_tail_lines.len() == self.core.active_tail_lines@.len());
        if self.core.queue.len() > 0 || self.core.active_tail_lines.len() == 0 {
            return None;
        }
        let mut lines: Vec<Vec<Span>> = Vec::new();
        assert(spans::lines_view(lines@) =~= Seq::<Seq<SpanView>>::empty());
        let tail = &self.core.active_tail_lines;
        spans::copy_lines(tail, 0, tail.len(), &mut lines);
        assert(spans::lines_view(lines@) =~= self.core@.active_tail_lines);
        Some(MessageCell { lines, is_first: !self.header_emitted, markdown_source: None })
    }

    /// Ends the stream: the last cell, and the whole source, where there was any. `rendered`
    /// is what the whole source renders to.
    pub fn finalize(&mut self, remainder: &str, rendered: &Vec<Vec<Span>>) -> (r: (
        Option<MessageCell>,
        Option<String>,
    ))
        requires
            old(self).wf(),
        ensures
            final(self).wf(),
            final(self).core@ == empty_stream(old(self).core.width),
            ({
                let source = old(self).core@.raw_source + remainder@;
                let emitted_len = old(self).core@.emitted_len;
                let left = if emitted_len >= rendered@.len() {
                    Seq::empty()
                } else {
                    spans::lines_view(rendered@).skip(emitted_len)
                };
                if source.len() == 0 {
                    r.0 is None && r.1 is None && final(self).header_emitted == old(self).header_emitted
                } else {
                    &&& is_message_cell(r.0, left, !old(self).header_emitted, Some(source))
                    &&& text::option_view(r.1) == Some(source)
                    &&& final(self).header_emitted == (old(self).header_emitted || left.len() > 0)
                }
            }),
    {
        let left = self.core.finalize_remaining(remainder, rendered);
        if text::chars_of(self.core.raw_source.as_str()).len() == 0 {
            self.core.reset();
            return (None, None);
        }
        let source = self.core.raw_source.clone();
        assert(spans::lines_view(left@).len() == left@.len());
        let out = self.emit(left, Some(source.clone()));
        self.core.reset();
        (out, Some(source))
    }

    /// Emits a queued line. Says whether nothing is queued any more.
    pub fn on_commit_tick(&mut self) -> (r: (Option<MessageCell>, bool))
        requires
            old(self).wf(),
        ensures
            final(self).wf(),
            ({
                let s = old(self).core@;
                let n = if s.queue.len() > 0 {
                    1int
                } else {
                    0int
                };
                &&& final(self).core@ == emitted(s, n)
                &&& is_message_cell(
                    r.0,
                    s.queue.take(n),
                    !old(self).header_emitted,
                    stable_snapshot(emitted(s, n)),
                )
                &&& final(self).header_emitted == (old(self).header_emitted || n > 0)
                &&& r.1 == (emitted(s, n).queue.len() == 0)
            }),
    {
        self.on_commit_tick_batch(1)
    }

    /// Emits up to a number of queued lines. Says whether nothing is queued any more.
    pub fn on_commit_tick_batch(&mut self, max_lines: usize) -> (r: (Option<MessageCell>, bool))
        requires
            old(self).wf(),
        ensures
            final(self).wf(),
            ({
                let s = old(self).core@;
                let n = if max_lines < s.queue.len() {
                    max_lines as int
                } else {
                    s.queue.len() as int
                };
                &&& final(self).core@ == emitted(s, n)
                &&& is_message_cell(
                    r.0,
                    s.queue.take(n),
                    !old(self).header_emitted,
                    stable_snapshot(emitted(s, n)),
                )
                &&& final(self).header_emitted == (old(self).header_emitted || n > 0)
                &&& r.1 == (emitted(s, n).queue.len() == 0)
            }),
    {
        let step = self.core.tick_batch(max_lines);
        assert(spans::lines_view(step@).len() == step@.len());
        assert(self.core@.rendered_lines.len() == self.core.rendered_lines@.len());
        assert(self.core@.queue.len() == self.core.queue@.len());
        let source = self.core.emitted_stable_source();
        let cell = self.emit(step, source);
        (cell, self.core.is_idle())
    }
}

// ---- cells of a plan ----

/// Lines of a proposed plan that are shown together.
#[derive(Debug)]
pub struct PlanCell {
    pub lines: Vec<Vec<Span>>,
    /// The lines from here on wear the style of a plan.
    pub plan_start: usize,
    pub is_continuation: bool,
    pub markdown_source: Option<String>,
    pub include_bottom_padding: bool,
}

/// The stream of a proposed plan.
#[derive(Debug)]
pub struct PlanStreamController {
    pub core: StreamCore,
    pub header_emitted: bool,
    pub top_padding_emitted: bool,
}

/// The title of a plan.
pub open spec fn plan_title() -> Seq<SpanView> {
    seq![("• "@, Tone::Dim), ("Proposed Plan"@, Tone::Bold)]
}

/// A line that holds a space.
pub open spec fn blank() -> Seq<SpanView> {
    seq![(" "@, Tone::Plain)]
}

/// Lines set in from the left.
pub open spec fn indented(lines: Seq<Seq<SpanView>>) -> Seq<Seq<SpanView>> {
    lines.map_values(|l: Seq<SpanView>| seq![("  "@, Tone::Plain)] + l)
}

/// The lines of a plan cell: a heading and padding where they were not shown yet, the lines,
/// and padding below the last.
pub open spec fn plan_lines(
    lines: Seq<Seq<SpanView>>,
    with_header: bool,
    with_top: bool,
    with_bottom: bool,
) -> Seq<Seq<SpanView>> {
    (if with_header {
        seq![plan_title(), blank()]
    } else {
        Seq::empty()
    }) + indented(
        (if with_top {
            seq![blank()]
        } else {
            Seq::empty()
        }) + lines + (if with_bottom {
            seq![blank()]
        } else {
            Seq::empty()
        }),
    )
}

fn push_blank(out: &mut Vec<Vec<Span>>)
    ensures
        spans::lines_view(final(out)@) == spans::lines_view(old(out)@).push(blank()),
{
    let mut line = spans::empty_line();
    spans::push_span(&mut line, " ".to_owned(), Tone::Plain);
    assert(spans::line_view(line@) =~= blank());
    spans::push_line(out, line);
}

fn push_indented(out: &mut Vec<Vec<Span>>, line: &Vec<Span>)
    ensures
        spans::lines_view(final(out)@) == spans::lines_view(old(out)@).push(
            seq![("  "@, Tone::Plain)] + spans::line_view(line@),
        ),
{
    let ghost v = spans::line_view(line@);
    let mut indented = spans::empty_line();
    spans::push_span(&mut indented, "  ".to_owned(), Tone::Plain);
    let mut i: usize = 0;
    assert(spans::line_view(indented@) =~= seq![("  "@, Tone::Plain)] + v.take(0));
    while i < line.len()
        invariant
            i <= line.len(),
            v == spans::line_view(line@),
            spans::line_view(indented@) == seq![("  "@, Tone::Plain)] + v.take(i as int),
        decreases line.len() - i,
    {
        spans::push_span(&mut indented, line[i].text.clone(), line[i].tone);
        assert(seq![("  "@, Tone::Plain)] + v.take(i + 1) =~= (seq![("  "@, Tone::Plain)] + v.take(
            i as int,
        )).push(v[i as int]));
        i = i + 1;
    }
    assert(v.take(i as int) =~= v);
    spans::push_line(out, indented);
}

fn push_blank_indented(out: &mut Vec<Vec<Span>>)
    ensures
        spans::lines_view(final(out)@) == spans::lines_view(old(out)@).push(
            seq![("  "@, Tone::Plain)] + blank(),
        ),
{
    let mut line = spans::empty_line();
    spans::push_span(&mut line, " ".to_owned(), Tone::Plain);
    assert(spans::line_view(line@) =~= blank());
    push_indented(out, &line);
}

fn lay_out_plan(lines: &Vec<Vec<Span>>, with_header: bool, with_top: bool, with_bottom: bool) -> (r:
    Vec<Vec<Span>>)
    ensures
        spans::lines_view(r@) == plan_lines(
            spans::lines_view(lines@),
            with_header,
            with_top,
            with_bottom,
        ),
{
    let ghost views = spans::lines_view(lines@);
    let mut out: Vec<Vec<Span>> = Vec::new();
    let ghost mut body: Seq<Seq<SpanView>> = Seq::empty();
    let ghost header: Seq<Seq<SpanView>> = if with_header {
        seq![plan_title(), blank()]
    } else {
        Seq::empty()
    };
    if with_header {
        let title = spans::two_spans("• ", Tone::Dim, "Proposed Plan".to_owned(), Tone::Bold);
        spans::push_line(&mut out, title);
        push_blank(&mut out);
    }
    assert(spans::lines_view(out@) =~= header + indented(body));
    if with_top {
        push_blank_indented(&mut out);
        proof {
            body = seq![blank()];
        }
        assert(spans::lines_view(out@) =~= header + indented(body));
    }
    let ghost top = body;
    let mut i: usize = 0;
    assert(top + views.take(0) =~= top);
    while i < lines.len()
        invariant
            i <= lines.len(),
            views == spans::lines_view(lines@),
            spans::lines_view(out@) == header + indented(top + views.take(i as int)),
        decreases lines.len() - i,
    {
        push_indented(&mut out, &lines[i]);
        assert(views[i as int] == spans::line_view(lines@[i as int]@));
        assert(header + indented(top + views.take(i + 1)) =~= (header + indented(
            top + views.take(i as int),
        )).push(seq![("  "@, Tone::Plain)] + views[i as int]));
        i = i + 1;
    }
    assert(views.take(i as int) =~= views);
    if with_bottom {
        push_blank_indented(&mut out);
        assert(spans::lines_view(out@) =~= header + indented(top + views + seq![blank()]));
    } else {
        assert(top + views + Seq::<Seq<SpanView>>::empty() =~= top + views);
    }
    out
}

/// Whether a cell holds the lines of a plan; there is none without lines or padding.
pub open spec fn is_plan_cell(
    cell: Option<PlanCell>,
    lines: Seq<Seq<SpanView>>,
    header_emitted: bool,
    top_emitted: bool,
    bottom: bool,
    source: Option<Seq<char>>,
) -> bool {
    if lines.len() == 0 && !bottom {
        cell is None
    } else {
        &&& cell matches Some(c)
        &&& spans::lines_view(c.lines@) == plan_lines(lines, !header_emitted, !top_emitted, bottom)
        &&& c.plan_start == (if header_emitted {
            0int
        } else {
            2int
        })
        &&& c.is_continuation == header_emitted
        &&& text::option_view(c.markdown_source) == source
        &&& c.include_bottom_padding == bottom
    }
}

impl PlanStreamController {
    /// Whether the stream is sound.
    pub open spec fn wf(&self) -> bool {
        self.core.wf()
    }

    /// A stream without source.
    pub fn new(width: Option<usize>) -> (r: Self)
        ensures
            r.wf() && !r.header_emitted && !r.top_padding_emitted,
            r.core@ == empty_stream(width),
    {
        PlanStreamController {
            core: StreamCore::new(width),
            header_emitted: false,
            top_padding_emitted: false,
        }
    }

    fn emit(
        &mut self,
        lines: Vec<Vec<Span>>,
        include_bottom_padding: bool,
        markdown_source: Option<String>,
    ) -> (r: Option<PlanCell>)
        ensures
            final(self).core == old(self).core,
            ({
                let shown = lines@.len() > 0 || include_bottom_padding;
                &&& final(self).header_emitted == (old(self).header_emitted || shown)
                &&& final(self).top_padding_emitted == (old(self).top_padding_emitted || shown)
            }),
            is_plan_cell(
                r,
                spans::lines_view(lines@),
                old(self).header_emitted,
                old(self).top_padding_emitted,
                include_bottom_padding,
                text::option_view(markdown_source),
            ),
    {
        assert(spans::lines_view(lines@).len() == lines@.len());
        if lines.len() == 0 && !include_bottom_padding {
            return None;
        }
        let is_continuation = self.header_emitted;
        let out = lay_out_plan(
            &lines,
            !self.header_emitted,
            !self.top_padding_emitted,
            include_bottom_padding,
        );
        self.header_emitted = true;
        self.top_padding_emitted = true;
        let plan_start: usize = if is_continuation {
            0
        } else {
            2
        };
        Some(
            PlanCell {
                lines: out,
                plan_start,
                is_continuation,
                markdown_source,
                include_bottom_padding,
            },
        )
    }

    /// The mutable tail of the plan. It waits for what is queued before it.
    pub fn active_tail_cell(&self) -> (r: Option<PlanCell>)
        ensures
            if self.core@.queue.len() > 0 {
                r is None
            } else {
                is_plan_cell(
                    r,
                    self.core@.active_tail_lines,
                    self.header_emitted,
                    self.top_padding_emitted,
                    false,
                    None,
                )
            },
    {
        assert(self.core@.queue.len() == self.core.queue@.len());
        assert(self.core@.active_tail_lines.len() == self.core.active_tail_lines@.len());
        if self.core.queue.len() > 0 || self.core.active_tail_lines.len() == 0 {
            return None;
        }
        let lines = lay_out_plan(
            &self.core.active_tail_lines,
            !self.header_emitted,
            !self.top_padding_emitted,
            false,
        );
        Some(
            PlanCell {
                lines,
                plan_start: if self.header_emitted {
                    0
                } else {
                    2
                },
                is_continuation: self.header_emitted,
                markdown_source: None,
                include_bottom_padding: false,
            },
        )
    }

    /// Ends the stream: the last cell, and the whole source, where there was any.
    pub fn finalize(&mut self, remainder: &str, rendered: &Vec<Vec<Span>>) -> (r: (
        Option<PlanCell>,
        Option<String>,
    ))
        requires
            old(self).wf(),
        ensures
            final(self).wf(),
            final(self).core@ == empty_stream(old(self).core.width),
            ({
                let source = old(self).core@.raw_source + remainder@;
                let emitted_len = old(self).core@.emitted_len;
                let left = if emitted_len >= rendered@.len() {
                    Seq::empty()
                } else {
                    spans::lines_view(rendered@).skip(emitted_len)
                };
                if source.len() == 0 {
                    &&& r.0 is None && r.1 is None
                    &&& final(self).header_emitted == old(self).header_emitted
                    &&& final(self).top_padding_emitted == old(self).top_padding_emitted
                } else {
                    &&& final(self).header_emitted && final(self).top_padding_emitted
                    &&& is_plan_cell(
                        r.0,
                        left,
                        old(self).header_emitted,
                        old(self).top_padding_emitted,
                        true,
                        Some(source),
                    )
                    &&& text::option_view(r.1) == Some(source)
                }
            }),
    {
        let left = self.core.finalize_remaining(remainder, rendered);
        if text::chars_of(self.core.raw_source.as_str()).len() == 0 {
            self.core.reset();
            return (None, None);
        }
        let source = self.core.raw_source.clone();
        let out = self.emit(left, true, Some(source.clone()));
        self.core.reset();
        (out, Some(source))
    }

    /// Emits up to a number of queued lines. Says whether nothing is queued any more.
    pub fn on_commit_tick_batch(&mut self, max_lines: usize) -> (r: (Option<PlanCell>, bool))
        requires
            old(self).wf(),
        ensures
            final(self).wf(),
            ({
                let s = old(self).core@;
                let n = if max_lines < s.queue.len() {
                    max_lines as int
                } else {
                    s.queue.len() as int
                };
                &&& final(self).core@ == emitted(s, n)
                &&& is_plan_cell(
                    r.0,
                    s.queue.take(n),
                    old(self).header_emitted,
                    old(self).top_padding_emitted,
                    false,
                    stable_snapshot(emitted(s, n)),
                )
                &&& final(self).header_emitted == (old(self).header_emitted || n > 0)
                &&& final(self).top_padding_emitted == (old(self).top_padding_emitted || n > 0)
                &&& r.1 == (emitted(s, n).queue.len() == 0)
            }),
    {
        let step = self.core.tick_batch(max_lines);
        assert(spans::lines_view(step@).len() == step@.len());
        assert(self.core@.rendered_lines.len() == self.core.rendered_lines@.len());
        assert(self.core@.queue.len() == self.core.queue@.len());
        let source = self.core.emitted_stable_source();
        let cell = self.emit(step, false, source);
        (cell, self.core.is_idle())
    }

    /// Emits a queued line. Says whether nothing is queued any more.
    pub fn on_commit_tick(&mut self) -> (r: (Option<PlanCell>, bool))
        requires
            old(self).wf(),
        ensures
            final(self).wf(),
            ({
                let s = old(self).core@;
                let n = if s.queue.len() > 0 {
                    1int
                } else {
                    0int
                };
                &&& final(self).core@ == emitted(s, n)
                &&& is_plan_cell(
                    r.0,
                    s.queue.take(n),
                    old(self).header_emitted,
                    old(self).top_padding_emitted,
                    false,
                    stable_snapshot(emitted(s, n)),
                )
                &&& final(self).header_emitted == (old(self).header_emitted || n > 0)
                &&& final(self).top_padding_emitted == (old(self).top_padding_emitted || n > 0)
                &&& r.1 == (emitted(s, n).queue.len() == 0)
            }),
    {
        self.on_commit_tick_batch(1)
    }
}

// ---- laws ----

/// What was emitted before a resize is not queued again after it, where nothing was waiting.
pub proof fn emitted_lines_are_not_queued_again(
    s: StreamView,
    width: Option<usize>,
    stable: Seq<Seq<SpanView>>,
    tail: Seq<Seq<SpanView>>,
)
    requires
        s.queue.len() == 0,
        s.emitted_len > 0,
        stable.len() > 0,
    ensures
        resized(s, width, stable, tail).queue.len() == 0,
{
}

/// What waits before a resize does not get lost in it: where something is rendered, at least
/// one line waits after it, and the last line that waits is the last that is rendered.
pub proof fn waiting_lines_survive_a_resize(
    s: StreamView,
    width: Option<usize>,
    stable: Seq<Seq<SpanView>>,
    tail: Seq<Seq<SpanView>>,
)
    requires
        s.stable_source_end > 0,
        s.queue.len() > 0,
        0 <= s.emitted_len,
        stable.len() > 0,
    ensures
        resized(s, width, stable, tail).queue.len() > 0,
        resized(s, width, stable, tail).queue.last() == stable.last(),
{
}

/// Without a resize every rendered line is emitted exactly once and in order: what was emitted
/// followed by what waits is what was queued, when the lines that were rendered before stay
/// as they are and more are added.
pub proof fn lines_are_emitted_once_in_order(
    done: Seq<Seq<SpanView>>,
    s: StreamView,
    stable_end: int,
    stable: Seq<Seq<SpanView>>,
    tail: Seq<Seq<SpanView>>,
    n: int,
)
    requires
        s.emitted_len == done.len(),
        done + s.queue == s.rendered_lines,
        s.enqueued_len == s.rendered_lines.len(),
        s.rendered_lines.len() <= stable.len(),
        stable.take(s.rendered_lines.len() as int) == s.rendered_lines,
        stable_end > s.stable_source_end,
        0 <= n <= synced(s, stable_end, stable, tail).queue.len(),
    ensures
        ({
            let t = synced(s, stable_end, stable, tail);
            let u = emitted(t, n);
            let now = done + t.queue.take(n);
            &&& done + t.queue == t.rendered_lines
            &&& t.enqueued_len == t.rendered_lines.len()
            &&& u.emitted_len == now.len()
            &&& now + u.queue == u.rendered_lines
        }),
{
    let t = synced(s, stable_end, stable, tail);
    assert(done + t.queue =~= t.rendered_lines) by {
        if t.rendered_lines.len() > s.enqueued_len {
            let added = stable.subrange(s.enqueued_len, stable.len() as int);
            assert(done + (s.queue + added) =~= (done + s.queue) + added);
            assert(stable =~= stable.take(s.enqueued_len) + added);
        } else {
            assert(stable =~= stable.take(s.rendered_lines.len() as int));
        }
    }
    assert(t.queue =~= t.queue.take(n) + t.queue.skip(n));
    assert(done + t.queue.take(n) + t.queue.skip(n) =~= done + t.queue);
}

/// A resize with lines waiting keeps what was emitted, and queues exactly what is rendered behind
/// it. Where no more is rendered than was emitted, the last rendered line alone waits.
pub proof fn resizing_keeps_what_was_emitted(
    s: StreamView,
    width: Option<usize>,
    stable: Seq<Seq<SpanView>>,
    tail: Seq<Seq<SpanView>>,
)
    requires
        s.stable_source_end > 0,
        s.queue.len() > 0,
        0 <= s.emitted_len,
    ensures
        ({
            let t = resized(s, width, stable, tail);
            &&& t.width == width
            &&& t.rendered_lines == stable
            &&& t.raw_source == s.raw_source && t.stable_source_end == s.stable_source_end
            &&& t.enqueued_len == stable.len()
            &&& s.emitted_len < stable.len() ==> t.emitted_len == s.emitted_len && t.queue
                == stable.skip(s.emitted_len)
            &&& 0 < stable.len() <= s.emitted_len ==> t.emitted_len == stable.len() - 1 && t.queue
                == seq![stable.last()]
            &&& stable.len() == 0 ==> t.emitted_len == 0 && t.queue.len() == 0
        }),
{
    let t = resized(s, width, stable, tail);
    if s.emitted_len < stable.len() {
        assert(t.queue =~= stable.skip(s.emitted_len));
    } else if stable.len() > 0 {
        assert(t.queue =~= seq![stable.last()]);
    }
}

/// A resize without lines waiting queues nothing of a stream that was shown already, and
/// everything of one that was not. Only lines that are rendered later can follow.
pub proof fn resizing_at_rest(
    s: StreamView,
    width: Option<usize>,
    stable: Seq<Seq<SpanView>>,
    tail: Seq<Seq<SpanView>>,
)
    requires
        s.stable_source_end > 0,
        s.queue.len() == 0,
        0 <= s.emitted_len,
    ensures
        ({
            let t = resized(s, width, stable, tail);
            &&& t.rendered_lines == stable
            &&& t.enqueued_len == stable.len()
            &&& s.emitted_len == 0 ==> t.emitted_len == 0 && t.queue == stable
            &&& 0 < s.emitted_len <= stable.len() ==> t.emitted_len == s.emitted_len
            &&& 0 < stable.len() < s.emitted_len ==> t.emitted_len == stable.len()
            &&& s.emitted_len > 0 ==> t.queue.len() == 0
        }),
{
    let t = resized(s, width, stable, tail);
    if s.emitted_len == 0 {
        assert(t.queue =~= stable);
    }
}

/// A resize before anything is stable renders and queues nothing.
pub proof fn resizing_before_anything_is_stable(
    s: StreamView,
    width: Option<usize>,
    stable: Seq<Seq<SpanView>>,
    tail: Seq<Seq<SpanView>>,
)
    requires
        s.stable_source_end == 0,
        0 <= s.emitted_len,
    ensures
        resized(s, width, stable, tail).rendered_lines.len() == 0,
        resized(s, width, stable, tail).queue.len() == 0,
        s.raw_source.len() > 0 ==> resized(s, width, stable, tail).active_tail_lines == tail,
{
}

/// The mutable tail is what the source behind the stable part renders to, and nothing once all of
/// the source is stable, both when source comes in and when the width changes.
pub proof fn tails_end_with_the_stable_source(
    s: StreamView,
    width: Option<usize>,
    stable_end: int,
    stable: Seq<Seq<SpanView>>,
    tail: Seq<Seq<SpanView>>,
)
    requires
        s.stable_source_end <= stable_end <= s.raw_source.len(),
    ensures
        stable_end < s.raw_source.len() ==> synced(s, stable_end, stable, tail).active_tail_lines
            == tail,
        stable_end == s.raw_source.len() ==> synced(
            s,
            stable_end,
            stable,
            tail,
        ).active_tail_lines.len() == 0,
        synced(s, stable_end, stable, tail).stable_source_end == stable_end,
        synced(s, stable_end, stable, tail).raw_source == s.raw_source,
        synced(s, stable_end, stable, tail).emitted_len == s.emitted_len,
        s.stable_source_end < s.raw_source.len() ==> resized(
            s,
            width,
            stable,
            tail,
        ).active_tail_lines == tail,
        s.stable_source_end == s.raw_source.len() ==> resized(
            s,
            width,
            stable,
            tail,
        ).active_tail_lines.len() == 0,
{
}

/// Source that comes in queues what it renders behind what was queued, and keeps what waits. Where
/// it renders to fewer lines than were queued, what waits is what is rendered behind the emitted.
pub proof fn new_source_queues_behind_the_old(
    s: StreamView,
    stable_end: int,
    stable: Seq<Seq<SpanView>>,
    tail: Seq<Seq<SpanView>>,
)
    requires
        stable_end > s.stable_source_end,
        0 <= s.emitted_len <= s.enqueued_len,
    ensures
        ({
            let t = synced(s, stable_end, stable, tail);
            &&& t.rendered_lines == stable
            &&& s.enqueued_len <= stable.len() ==> t.queue == s.queue + stable.skip(s.enqueued_len)
            &&& s.emitted_len <= stable.len() < s.enqueued_len ==> t.queue == stable.skip(
                s.emitted_len,
            )
            &&& stable.len() >= s.emitted_len ==> t.enqueued_len == stable.len()
        }),
{
    let t = synced(s, stable_end, stable, tail);
    if s.enqueued_len <= stable.len() {
        assert(t.queue =~= s.queue + stable.skip(s.enqueued_len));
    } else if s.emitted_len <= stable.len() {
        assert(t.queue =~= stable.skip(s.emitted_len));
    }
}

/// Source that makes nothing more stable leaves what is queued and emitted alone.
pub proof fn unstable_source_queues_nothing(
    s: StreamView,
    stable_end: int,
    stable: Seq<Seq<SpanView>>,
    tail: Seq<Seq<SpanView>>,
)
    requires
        stable_end <= s.stable_source_end,
    ensures
        ({
            let t = synced(s, stable_end, stable, tail);
            &&& t.queue == s.queue
            &&& t.emitted_len == s.emitted_len && t.enqueued_len == s.enqueued_len
            &&& t.rendered_lines == s.rendered_lines
            &&& t.stable_source_end == s.stable_source_end
        }),
{
}

/// Emitting takes lines from the front of what waits: they and what still waits are what waited.
pub proof fn emitting_takes_from_the_front(s: StreamView, n: int)
    requires
        0 <= n <= s.queue.len(),
    ensures
        s.queue.take(n) + emitted(s, n).queue == s.queue,
        emitted(s, n).emitted_len == s.emitted_len + n,
        emitted(s, n).rendered_lines == s.rendered_lines,
        emitted(s, n).enqueued_len == s.enqueued_len,
        emitted(s, n).raw_source == s.raw_source,
        emitted(s, n).active_tail_lines == s.active_tail_lines,
{
    assert(s.queue.take(n) + s.queue.skip(n) =~= s.queue);
}

/// A cell carries the stable source just when all lines of it were emitted.
pub proof fn cells_carry_the_source_they_complete(s: StreamView)
    requires
        0 < s.stable_source_end <= s.raw_source.len(),
    ensures
        s.emitted_len < s.rendered_lines.len() ==> stable_snapshot(s) is None,
        s.emitted_len == s.rendered_lines.len() ==> stable_snapshot(s) is Some
            && stable_snapshot(s)->0 + s.raw_source.skip(s.stable_source_end) == s.raw_source
            && stable_snapshot(s)->0.len() == s.stable_source_end,
{
    assert(s.raw_source.take(s.stable_source_end) + s.raw_source.skip(s.stable_source_end)
        =~= s.raw_source);
}

/// A cell of a plan shows all its lines, in order and set in by two columns, under a heading and
/// padding where those are due, and above padding where that is.
pub proof fn plan_cells_show_their_lines(
    lines: Seq<Seq<SpanView>>,
    with_header: bool,
    with_top: bool,
    with_bottom: bool,
)
    ensures
        ({
            let shown = plan_lines(lines, with_header, with_top, with_bottom);
            let above: int = (if with_header {
                2int
            } else {
                0
            }) + (if with_top {
                1int
            } else {
                0
            });
            &&& shown.len() == above + lines.len() + (if with_bottom {
                1int
            } else {
                0
            })
            &&& forall|i: int|
                0 <= i < lines.len() ==> #[trigger] shown[above + i].len() == lines[i].len() + 1
                    && shown[above + i][0].0 == "  "@ && shown[above + i].skip(1) == lines[i]
            &&& with_header ==> shown[0].len() == 2 && shown[0][1].0 == "Proposed Plan"@
        }),
{
    let shown = plan_lines(lines, with_header, with_top, with_bottom);
    let above: int = (if with_header {
        2int
    } else {
        0
    }) + (if with_top {
        1int
    } else {
        0
    });
    assert forall|i: int| 0 <= i < lines.len() implies #[trigger] shown[above + i].len()
        == lines[i].len() + 1 && shown[above + i][0].0 == "  "@ && shown[above + i].skip(1)
        == lines[i] by {
        assert(shown[above + i] =~= seq![("  "@, Tone::Plain)] + lines[i]);
        assert(shown[above + i].skip(1) =~= lines[i]);
    }
}

/// Whether new source brought lines to show is told as it is: more lines wait than before, or, where
/// the source now renders to fewer lines than were queued, any at all.
pub proof fn syncing_tells_whether_lines_wait(s: StreamView)
    requires
        0 <= s.emitted_len <= s.enqueued_len,
    ensures
        s.rendered_lines.len() >= s.enqueued_len ==> (sync_queues(s) <==> queue_synced(
            s,
        ).queue.len() > s.queue.len()),
        s.rendered_lines.len() < s.enqueued_len && s.emitted_len < s.enqueued_len ==> (sync_queues(
            s,
        ) <==> queue_synced(s).queue.len() > 0),
        sync_queues(s) ==> queue_synced(s).queue.len() > 0,
{
}

/// A message is shown exactly where there are lines to show: all of them, with its source and told
/// whether it is the first.
pub proof fn messages_show_their_lines(
    cell: Option<MessageCell>,
    lines: Seq<Seq<SpanView>>,
    is_first: bool,
    source: Option<Seq<char>>,
)
    requires
        is_message_cell(cell, lines, is_first, source),
    ensures
        cell is Some <==> lines.len() > 0,
        cell matches Some(c) ==> spans::lines_view(c.lines@) == lines && c.is_first == is_first
            && text::option_view(c.markdown_source) == source,
{
}

/// A part of a plan is shown where there are lines to show or the plan ends. Its first part has the
/// title, which does not wear the style of the plan, and all others go on from it.
pub proof fn plans_are_titled_once(
    cell: Option<PlanCell>,
    lines: Seq<Seq<SpanView>>,
    header_emitted: bool,
    top_emitted: bool,
    bottom: bool,
    source: Option<Seq<char>>,
)
    requires
        is_plan_cell(cell, lines, header_emitted, top_emitted, bottom, source),
    ensures
        cell is None <==> lines.len() == 0 && !bottom,
        cell matches Some(c) ==> {
            let shown = spans::lines_view(c.lines@);
            let above: int = (if header_emitted {
                0int
            } else {
                2
            }) + (if top_emitted {
                0int
            } else {
                1
            });
            &&& c.is_continuation == header_emitted
            &&& !header_emitted ==> c.plan_start == 2 && shown[0].len() == 2 && shown[0][1].0
                == "Proposed Plan"@
            &&& header_emitted ==> c.plan_start == 0
            &&& shown.len() == above + lines.len() + (if bottom {
                1int
            } else {
                0
            })
            &&& forall|i: int|
                0 <= i < lines.len() ==> #[trigger] shown[above + i].skip(1) == lines[i]
            &&& c.include_bottom_padding == bottom
            &&& text::option_view(c.markdown_source) == source
        },
{
    plan_cells_show_their_lines(lines, !header_emitted, !top_emitted, bottom);
}

/// Only a piece of text that ends a line can make more of a message stable.
pub proof fn line_ends_commit(delta: Seq<char>, more: Seq<char>)
    ensures
        commits(delta + seq!['\n'] + more),
        !commits(Seq::empty()),
        commits(delta + more) <==> commits(delta) || commits(more),
{
    let whole = delta + seq!['\n'] + more;
    assert(whole[delta.len() as int] == '\n');
    let both = delta + more;
    if commits(delta) {
        let i = delta.index_of('\n');
        assert(both[i] == '\n');
    }
    if commits(more) {
        let i = more.index_of('\n');
        assert(both[delta.len() + i] == '\n');
    }
    if commits(both) {
        let i = both.index_of('\n');
        if i < delta.len() {
            assert(delta[i] == '\n');
        } else {
            assert(more[i - delta.len()] == '\n');
        }
    }
}

/// A new stream has nothing: no source, no lines, and nothing emitted or waiting.
pub proof fn new_streams_are_empty(width: Option<usize>)
    ensures
        ({
            let s = empty_stream(width);
            &&& s.width == width
            &&& s.raw_source.len() == 0 && s.stable_source_end == 0
            &&& s.rendered_lines.len() == 0 && s.queue.len() == 0
                && s.active_tail_lines.len() == 0
            &&& s.enqueued_len == 0 && s.emitted_len == 0
            &&& stable_snapshot(s) is None
        }),
{
}

} // verus!
