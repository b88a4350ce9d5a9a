//! Decoding a stream of server-sent events.
use crate::hash;
use crate::text;
use vstd::prelude::*;
use vstd::string::*;

verus! {

/// Collects the bytes of a stream and takes events out of them.
#[derive(Debug)]
pub struct SseDecoder {
    pub buffer: Vec<u8>,
}

/// Whether two line feeds stand at a position.
pub open spec fn double_feed(b: Seq<u8>, i: int) -> bool {
    i + 2 <= b.len() && b[i] == 10 && b[i + 1] == 10
}

/// Whether two times a carriage return and a line feed stand at a position.
pub open spec fn double_return(b: Seq<u8>, i: int) -> bool {
    i + 4 <= b.len() && b[i] == 13 && b[i + 1] == 10 && b[i + 2] == 13 && b[i + 3] == 10
}

/// Where the first empty line at or after `from` begins, and how long its bytes are.
pub open spec fn boundary_from(b: Seq<u8>, from: int) -> Option<(int, int)>
    decreases b.len() - from,
{
    if from >= b.len() {
        None
    } else if double_feed(b, from) {
        Some((from, 2))
    } else if double_return(b, from) {
        Some((from, 4))
    } else {
        boundary_from(b, from + 1)
    }
}

/// Where the first frame ends, and how many bytes separate it from the next.
pub fn sse_boundary(buffer: &[u8]) -> (r: Option<(usize, usize)>)
    ensures
        match r {
            Some((i, n)) => boundary_from(buffer@, 0) == Some((i as int, n as int)) && i + n
                <= buffer@.len() && n > 0,
            None => boundary_from(buffer@, 0) is None,
        },
{
    let mut i: usize = 0;
    while i < buffer.len()
        invariant
            i <= buffer@.len(),
            boundary_from(buffer@, 0) == boundary_from(buffer@, i as int),
        decreases buffer@.len() - i,
    {
        if buffer.len() - i >= 2 && buffer[i] == 10 && buffer[i + 1] == 10 {
            return Some((i, 2));
        }
        if buffer.len() - i >= 4 && buffer[i] == 13 && buffer[i + 1] == 10 && buffer[i + 2] == 13
            && buffer[i + 3] == 10 {
            return Some((i, 4));
        }
        i += 1;
    }
    None
}

/// What follows `data:` in the first `n` lines, without white space before it.
pub open spec fn data_lines(lines: Seq<Seq<char>>, n: nat) -> Seq<Seq<char>>
    decreases n,
{
    if n == 0 {
        Seq::empty()
    } else if text::begins_with(lines[n - 1], "data:"@) {
        data_lines(lines, (n - 1) as nat).push(
            text::trim_front(lines[n - 1].skip("data:"@.len() as int)),
        )
    } else {
        data_lines(lines, (n - 1) as nat)
    }
}

/// The data of a frame.
pub open spec fn data_of(frame: Seq<char>) -> Option<Seq<char>> {
    let lines = text::lines(frame);
    let data = data_lines(lines, lines.len());
    if data.len() == 0 {
        None
    } else {
        Some(text::joined(data, "\n"@))
    }
}

/// The data of a frame of bytes, where the bytes are text, and else what is wrong with them.
pub open spec fn frame_data(frame: Seq<u8>) -> Result<Option<Seq<char>>, Seq<char>> {
    if vstd::utf8::valid_utf8(frame) {
        Ok(data_of(vstd::utf8::decode_utf8(frame)))
    } else {
        Err(text::utf8_fault(frame))
    }
}

/// A frame that is not text.
#[derive(Clone, Debug, PartialEq, Eq)]
pub struct InvalidText {
    /// What is wrong with its bytes.
    pub detail: String,
}

/// What a person is told of a frame that is not text.
pub open spec fn invalid_text(detail: Seq<char>) -> Seq<char> {
    "response stream contained invalid UTF-8: "@ + detail
}

impl InvalidText {
    /// What a person is told.
    pub fn message(&self) -> (s: String)
        ensures
            s@ == invalid_text(self.detail@),
    {
        text::cat2("response stream contained invalid UTF-8: ", &self.detail)
    }
}

/// The data of a frame of bytes.
pub fn sse_frame_data(frame: &[u8]) -> (r: Result<Option<String>, InvalidText>)
    ensures
        match r {
            Ok(Some(data)) => frame_data(frame@) == Ok::<Option<Seq<char>>, Seq<char>>(Some(data@)),
            Ok(None) => frame_data(frame@) == Ok::<Option<Seq<char>>, Seq<char>>(None),
            Err(e) => frame_data(frame@) == Err::<Option<Seq<char>>, Seq<char>>(e.detail@),
        },
{
    let frame_text = match text::utf8_text(frame) {
        Ok(s) => s,
        Err(detail) => {
            return Err(InvalidText { detail });
        },
    };
    let lines = text::lines_of(&frame_text);
    let ghost views = text::views(lines@);
    let mut data = text::no_texts();
    let mut i: usize = 0;
    while i < lines.len()
        invariant
            i <= lines@.len(),
            views == text::views(lines@),
            text::views(data@) == data_lines(views, i as nat),
        decreases lines@.len() - i,
    {
        assert(views[i as int] == lines@[i as int]@);
        if let Some(rest) = text::strip_prefix(&lines[i], "data:") {
            data = text::with(data, text::trim_start(rest));
        }
        i += 1;
    }
    assert(text::views(data@).len() == data@.len());
    if data.len() == 0 {
        Ok(None)
    } else {
        Ok(Some(text::join(&data, "\n")))
    }
}

/// What is taken out of some bytes: the data of the frames that end in them, up to the first that is
/// not text, the bytes that stay, and what is wrong with the frame that is not text.
pub struct Taken {
    pub events: Seq<Seq<char>>,
    pub rest: Seq<u8>,
    pub fault: Option<Seq<char>>,
}

/// The data of a frame as a list.
pub open spec fn listed(data: Option<Seq<char>>) -> Seq<Seq<char>> {
    match data {
        Some(d) => seq![d],
        None => Seq::empty(),
    }
}

/// What is taken out of some bytes.
pub open spec fn taken(b: Seq<u8>) -> Taken
    decreases b.len(),
    via taken_decreases
{
    match boundary_from(b, 0) {
        None => Taken { events: Seq::empty(), rest: b, fault: None },
        Some((i, n)) => {
            let rest = b.skip(i + n);
            match frame_data(b.take(i)) {
                Err(e) => Taken { events: Seq::empty(), rest, fault: Some(e) },
                Ok(data) => {
                    let more = taken(rest);
                    Taken { events: listed(data) + more.events, ..more }
                },
            }
        },
    }
}

#[via_fn]
proof fn taken_decreases(b: Seq<u8>) {
    lemma_boundary(b, 0);
}

proof fn lemma_boundary(b: Seq<u8>, from: int)
    requires
        0 <= from,
    ensures
        match boundary_from(b, from) {
            None => forall|j: int|
                #![trigger double_feed(b, j)]
                #![trigger double_return(b, j)]
                from <= j < b.len() ==> !double_feed(b, j) && !double_return(b, j),
            Some((i, n)) => {
                &&& from <= i
                &&& i + n <= b.len()
                &&& (n == 2 && double_feed(b, i) || n == 4 && !double_feed(b, i) && double_return(
                    b,
                    i,
                ))
                &&& forall|j: int|
                    #![trigger double_feed(b, j)]
                    #![trigger double_return(b, j)]
                    from <= j < i ==> !double_feed(b, j) && !double_return(b, j)
            },
        },
    decreases b.len() - from,
{
    if from < b.len() && !double_feed(b, from) && !double_return(b, from) {
        lemma_boundary(b, from + 1);
    }
}

/// What is taken out of some bytes when the stream has ended: what stayed is a frame too.
pub open spec fn taken_at_end(b: Seq<u8>) -> Taken {
    let t = taken(b);
    if t.fault is Some || t.rest.len() == 0 {
        t
    } else {
        match frame_data(t.rest) {
            Err(e) => Taken { events: t.events, rest: Seq::empty(), fault: Some(e) },
            Ok(data) => Taken {
                events: t.events + listed(data),
                rest: Seq::empty(),
                fault: None,
            },
        }
    }
}

/// What is wrong with the frame that ended the reading of a stream.
pub open spec fn fault_of(r: Result<Vec<String>, InvalidText>) -> Option<Seq<char>> {
    match r {
        Ok(_) => None,
        Err(e) => Some(e.detail@),
    }
}

impl SseDecoder {
    /// A decoder that has seen nothing.
    pub fn new() -> (d: SseDecoder)
        ensures
            d.buffer@ == Seq::<u8>::empty(),
    {
        SseDecoder { buffer: Vec::new() }
    }

    /// Takes the events that a chunk of the stream completes.
    pub fn push(&mut self, chunk: &[u8]) -> (r: Result<Vec<String>, InvalidText>)
        ensures
            final(self).buffer@ == taken(old(self).buffer@ + chunk@).rest,
            fault_of(r) == taken(old(self).buffer@ + chunk@).fault,
            r matches Ok(events) ==> text::views(events@) == taken(
                old(self).buffer@ + chunk@,
            ).events,
    {
        hash::append(&mut self.buffer, chunk);
        self.take_events(false)
    }

    /// Takes what is left when the stream has ended.
    pub fn finish(&mut self) -> (r: Result<Vec<String>, InvalidText>)
        ensures
            final(self).buffer@ == taken_at_end(old(self).buffer@).rest,
            fault_of(r) == taken_at_end(old(self).buffer@).fault,
            r matches Ok(events) ==> text::views(events@) == taken_at_end(
                old(self).buffer@,
            ).events,
    {
        self.take_events(true)
    }

    /// Takes the events that are complete, or all where the stream has ended.
    pub fn take_events(&mut self, finished: bool) -> (r: Result<Vec<String>, InvalidText>)
        ensures
            ({
                let t = if finished {
                    taken_at_end(old(self).buffer@)
                } else {
                    taken(old(self).buffer@)
                };
                &&& final(self).buffer@ == t.rest
                &&& fault_of(r) == t.fault
                &&& (r matches Ok(events) ==> text::views(events@) == t.events)
            }),
    {
        let ghost start = self.buffer@;
        let ghost whole = taken(start);
        let mut events = text::no_texts();
        let mut boundary = sse_boundary(&self.buffer);
        assert(text::views(events@) + whole.events == whole.events);
        while boundary.is_some()
            invariant
                start == old(self).buffer@,
                whole == taken(start),
                taken(self.buffer@).rest == whole.rest,
                taken(self.buffer@).fault == whole.fault,
                text::views(events@) + taken(self.buffer@).events == whole.events,
                match boundary {
                    Some((i, n)) => boundary_from(self.buffer@, 0) == Some((i as int, n as int))
                        && i + n <= self.buffer@.len() && n > 0,
                    None => boundary_from(self.buffer@, 0) is None,
                },
            decreases self.buffer@.len(),
        {
            let (i, n) = boundary.unwrap();
            let ghost before = self.buffer@;
            let mut rest = self.buffer.split_off(i);
            let tail = rest.split_off(n);
            let mut frame: Vec<u8> = tail;
            std::mem::swap(&mut self.buffer, &mut frame);
            assert(frame@ == before.take(i as int));
            assert(self.buffer@ == before.skip(i + n));
            match sse_frame_data(&frame) {
                Ok(Some(data)) => {
                    let ghost so_far = text::views(events@);
                    events = text::with(events, &data);
                    let ghost more = taken(self.buffer@).events;
                    assert(so_far + (seq![data@] + more) == so_far.push(data@) + more);
                },
                Ok(None) => {
                    assert(Seq::<Seq<char>>::empty() + taken(self.buffer@).events == taken(
                        self.buffer@,
                    ).events);
                },
                Err(e) => {
                    return Err(e);
                },
            }
            boundary = sse_boundary(&self.buffer);
        }
        assert(text::views(events@) + Seq::<Seq<char>>::empty() == text::views(events@));
        if finished && self.buffer.len() > 0 {
            let mut frame: Vec<u8> = Vec::new();
            std::mem::swap(&mut self.buffer, &mut frame);
            match sse_frame_data(&frame) {
                Ok(Some(data)) => {
                    let ghost so_far = text::views(events@);
                    events = text::with(events, &data);
                    assert(so_far + seq![data@] == so_far.push(data@));
                },
                Ok(None) => {
                    assert(text::views(events@) + Seq::<Seq<char>>::empty() == text::views(
                        events@,
                    ));
                },
                Err(e) => {
                    return Err(e);
                },
            }
        }
        Ok(events)
    }
}

// ---------------------------------------------------------------------------
// What always holds

proof fn lemma_boundary_stays(a: Seq<u8>, b: Seq<u8>, from: int)
    requires
        0 <= from,
        boundary_from(a, from) is Some,
    ensures
        boundary_from(a + b, from) == boundary_from(a, from),
    decreases a.len() - from,
{
    let whole = a + b;
    lemma_boundary(a, from);
    if double_feed(a, from) {
        assert(double_feed(whole, from));
    } else {
        assert(!double_feed(whole, from)) by {
            if double_feed(whole, from) {
                let (i, n) = boundary_from(a, from)->0;
                assert(i + n <= a.len());
            }
        }
        if double_return(a, from) {
            assert(double_return(whole, from));
        } else {
            let (i, n) = boundary_from(a, from)->0;
            assert(i > from);
            assert(!double_return(whole, from)) by {
                if double_return(whole, from) {
                    assert(from + 4 > a.len());
                    assert(i + n <= a.len());
                    assert(n == 2 && i == from + 1);
                    assert(a[i + 1] == 10);
                    assert(whole[from + 2] == a[i + 1]);
                }
            }
            lemma_boundary_stays(a, b, from + 1);
        }
    }
}

/// How a stream is cut into chunks does not matter: what is taken out of two chunks, one after the
/// other, is what is taken out of both at once.
pub proof fn chunks_do_not_matter(a: Seq<u8>, b: Seq<u8>)
    ensures
        taken(a).fault is Some ==> taken(a + b).fault == taken(a).fault,
        taken(a).fault is None ==> {
            &&& taken(a + b).fault == taken(taken(a).rest + b).fault
            &&& taken(a + b).events == taken(a).events + taken(taken(a).rest + b).events
            &&& taken(a + b).rest == taken(taken(a).rest + b).rest
        },
    decreases a.len(),
{
    match boundary_from(a, 0) {
        None => {
            assert(Seq::<Seq<char>>::empty() + taken(a + b).events == taken(a + b).events);
        },
        Some((i, n)) => {
            lemma_boundary(a, 0);
            lemma_boundary_stays(a, b, 0);
            assert((a + b).take(i) == a.take(i));
            assert((a + b).skip(i + n) == a.skip(i + n) + b);
            match frame_data(a.take(i)) {
                Err(_) => {},
                Ok(data) => {
                    chunks_do_not_matter(a.skip(i + n), b);
                    let first = taken(a.skip(i + n));
                    if first.fault is None {
                        assert(listed(data) + (first.events + taken(first.rest + b).events) == (
                        listed(data) + first.events) + taken(first.rest + b).events);
                    }
                },
            }
        },
    }
}

/// What stays in the buffer holds no complete frame.
pub proof fn what_stays_is_incomplete(b: Seq<u8>)
    requires
        taken(b).fault is None,
    ensures
        boundary_from(taken(b).rest, 0) is None,
    decreases b.len(),
{
    match boundary_from(b, 0) {
        None => {},
        Some((i, n)) => {
            lemma_boundary(b, 0);
            what_stays_is_incomplete(b.skip(i + n));
        },
    }
}

/// A frame of bytes that is text and holds no empty line gives its data when an empty line ends it,
/// before what the rest of the stream gives.
pub proof fn an_empty_line_ends_a_frame(frame: Seq<u8>, rest: Seq<u8>)
    requires
        vstd::utf8::valid_utf8(frame),
        forall|i: int| 0 <= i < frame.len() ==> #[trigger] frame[i] != 13,
        forall|i: int| 0 <= i < frame.len() && #[trigger] frame[i] == 10 ==> i + 1 < frame.len()
            && frame[i + 1] != 10,
    ensures
        ({
            let all = frame + seq![10u8, 10u8] + rest;
            match data_of(vstd::utf8::decode_utf8(frame)) {
                Some(data) => taken(all).events == seq![data] + taken(rest).events,
                None => taken(all).events == taken(rest).events,
            }
        }),
        taken(frame + seq![10u8, 10u8] + rest).rest == taken(rest).rest,
        taken(frame + seq![10u8, 10u8] + rest).fault == taken(rest).fault,
{
    let all = frame + seq![10u8, 10u8] + rest;
    lemma_boundary(all, 0);
    assert(all[frame.len() as int] == 10 && all[frame.len() as int + 1] == 10);
    assert(double_feed(all, frame.len() as int));
    assert forall|j: int| 0 <= j < frame.len() implies !double_feed(all, j) && !double_return(all, j) by {
        assert(all[j] == frame[j]);
        if frame[j] == 10 {
            assert(all[j + 1] == frame[j + 1]);
        }
    }
    let (i, n) = boundary_from(all, 0)->0;
    assert(i == frame.len() && n == 2);
    assert(all.take(i) == frame);
    assert(all.skip(i + n) == rest);
    assert(Seq::<Seq<char>>::empty() + taken(rest).events == taken(rest).events);
}

proof fn lemma_same_data(a: Seq<Seq<char>>, b: Seq<Seq<char>>, n: nat)
    requires
        n <= a.len(),
        n <= b.len(),
        forall|i: int| 0 <= i < n ==> a[i] == b[i],
    ensures
        data_lines(a, n) == data_lines(b, n),
    decreases n,
{
    if n > 0 {
        lemma_same_data(a, b, (n - 1) as nat);
    }
}

/// Only the lines of data count: each gives what stands behind its mark, without white space before
/// it, in the order of the lines.
pub proof fn the_lines_of_data_count(lines: Seq<Seq<char>>, line: Seq<char>, said: Seq<char>)
    ensures
        line == "data:"@ + said ==> data_lines(lines.push(line), lines.len() + 1) == data_lines(
            lines,
            lines.len(),
        ).push(text::trim_front(said)),
        !text::begins_with(line, "data:"@) ==> data_lines(lines.push(line), lines.len() + 1)
            == data_lines(lines, lines.len()),
        data_lines(Seq::empty(), 0).len() == 0,
{
    lemma_same_data(lines, lines.push(line), lines.len());
    if line == "data:"@ + said {
        assert(line.subrange(0, "data:"@.len() as int) == "data:"@);
        assert(line.skip("data:"@.len() as int) == said);
    }
}

/// The data of a frame of one line of data is what the line says.
pub proof fn one_line_of_data_is_the_data(said: Seq<char>)
    requires
        !said.contains('\n'),
        said.len() > 0 && !text::is_white(said[0]),
    ensures
        data_of("data:"@ + said) == Some(said),
        data_of("data: "@ + said) == Some(said),
{
    reveal_strlit("data:");
    reveal_strlit("data: ");
    lemma_one_line("data:"@ + said, said, said);
    let spaced = seq![' '] + said;
    assert("data: "@ + said == "data:"@ + spaced);
    assert(spaced.drop_first() == said);
    lemma_one_line("data:"@ + spaced, spaced, said);
}

proof fn lemma_one_line(frame: Seq<char>, behind: Seq<char>, said: Seq<char>)
    requires
        frame == "data:"@ + behind,
        !said.contains('\n'),
        said.len() > 0 && !text::is_white(said[0]),
        behind == said || behind == seq![' '] + said,
    ensures
        data_of(frame) == Some(said),
{
    reveal_strlit("data:");
    assert(!frame.contains('\n')) by {
        if frame.contains('\n') {
            let k = frame.index_of('\n');
            if k >= 5 {
                assert(frame[k] == behind[k - 5]);
                assert(said.contains('\n')) by {
                    if behind == said {
                        assert(said[k - 5] == '\n');
                    } else {
                        assert(said[k - 6] == '\n');
                    }
                }
            }
        }
    }
    text::lines_end_at_line_feeds(frame, Seq::empty());
    let lines = seq![frame];
    assert(text::lines(frame) == lines);
    assert(lines == Seq::<Seq<char>>::empty().push(frame));
    the_lines_of_data_count(Seq::empty(), frame, behind);
    let p = |c: char| text::is_white(c);
    assert(text::trim_front(said) == said);
    if behind != said {
        assert(behind[0] == ' ');
        assert(behind.drop_first() == said);
        assert(text::strip_front(behind, p) == text::strip_front(said, p));
        assert(text::trim_front(behind) == said);
    }
    let data = data_lines(lines, 1);
    assert(data == seq![said]);
    text::joined_texts_stand_in_a_row(Seq::empty(), said, "\n"@);
}

} // verus!
