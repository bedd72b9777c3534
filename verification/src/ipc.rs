//! The lines that clients send.
use vstd::prelude::*;
use vstd::string::*;
use vstd::utf8::encode_utf8;

use crate::cmd::{failure, CmdResponse};
use crate::driver::content::{encoded_text_is_shown, lossy_text, shown_text, text_of};

verus! {

/// Most bytes of a line.
pub const MAX_IPC_LINE: usize = 0x400_0000;

/// Most clients at a time.
pub const MAX_IPC_CLIENTS: usize = 32;

/// What a client is told that could not keep up with the log.
pub const LINES_DROPPED: &'static str = "(some log lines were dropped)";

/// How the reading of a line goes on.
#[derive(Debug, Clone, Copy, PartialEq, Eq, Structural)]
pub enum LineStep {
    /// The line goes on after these bytes.
    More { taken: usize },
    /// The line ends with these bytes.
    Done { taken: usize },
    /// The line is too long; these bytes are lost with it.
    TooLong { taken: usize },
}

/// Where the first line of `s` ends: behind its line feed, or with `s`.
pub open spec fn line_end(s: Seq<u8>) -> int
    decreases s.len(),
{
    if s.len() == 0 {
        0
    } else if s[0] == 10 {
        1
    } else {
        1 + line_end(s.drop_first())
    }
}

/// The first line of `s` has its line feed.
pub open spec fn line_complete(s: Seq<u8>) -> bool {
    s.contains(10)
}

proof fn lemma_line_end(s: Seq<u8>, i: int)
    requires
        0 <= i <= s.len(),
        forall|j: int| 0 <= j < i ==> s[j] != 10,
        i == s.len() || s[i] == 10,
    ensures
        line_end(s) == if i < s.len() {
            i + 1
        } else {
            i
        },
        line_complete(s) == (i < s.len()),
    decreases s.len(),
{
    if i < s.len() {
        assert(s.contains(s[i]));
    }
    if i > 0 {
        let t = s.drop_first();
        assert forall|j: int| 0 <= j < i - 1 implies t[j] != 10 by {
            assert(t[j] == s[j + 1]);
        }
        lemma_line_end(t, i - 1);
    }
}

/// How the reading of a line of which `len` bytes are there goes on with `chunk`.
pub open spec fn line_step(len: nat, chunk: Seq<u8>, max: usize) -> LineStep {
    let taken = line_end(chunk) as usize;
    if len + line_end(chunk) > max {
        LineStep::TooLong { taken }
    } else if line_complete(chunk) {
        LineStep::Done { taken }
    } else {
        LineStep::More { taken }
    }
}

/// A line that is being read.
#[derive(Debug)]
pub struct LineReader {
    pub bytes: Vec<u8>,
}

impl LineReader {
    /// A line of which nothing was read.
    pub fn new() -> (r: Self)
        ensures
            r.bytes@ == Seq::<u8>::empty(),
    {
        LineReader { bytes: Vec::new() }
    }

    /// Takes in what came of the line; says how much of it belongs to the line.
    pub fn feed(&mut self, chunk: &[u8], max: usize) -> (r: LineStep)
        ensures
            r == line_step(old(self).bytes@.len(), chunk@, max),
            final(self).bytes@ == if r is TooLong {
                old(self).bytes@
            } else {
                old(self).bytes@ + chunk@.subrange(0, line_end(chunk@))
            },
            old(self).bytes@.len() <= max ==> final(self).bytes@.len() <= max,
    {
        let ghost before = self.bytes@;
        let mut i: usize = 0;
        while i < chunk.len() && chunk[i] != 10
            invariant
                i <= chunk@.len(),
                forall|j: int| 0 <= j < i ==> chunk@[j] != 10,
            decreases chunk@.len() - i,
        {
            i = i + 1;
        }
        proof {
            lemma_line_end(chunk@, i as int);
        }
        let complete = i < chunk.len();
        let taken: usize = if complete {
            i + 1
        } else {
            i
        };
        if self.bytes.len() > max || taken > max - self.bytes.len() {
            return LineStep::TooLong { taken };
        }
        let mut k: usize = 0;
        assert(chunk@.subrange(0, 0) =~= Seq::empty());
        while k < taken
            invariant
                k <= taken <= chunk@.len(),
                self.bytes@ == before + chunk@.subrange(0, k as int),
            decreases taken - k,
        {
            self.bytes.push(chunk[k]);
            k = k + 1;
            assert(self.bytes@ =~= before + chunk@.subrange(0, k as int));
        }
        if complete {
            LineStep::Done { taken }
        } else {
            LineStep::More { taken }
        }
    }

    /// The line as a text. Bytes that are no UTF-8 do not stop it.
    pub fn text(&self) -> (r: String)
        ensures
            r@ == shown_text(self.bytes@),
            r@ == lossy_text(self.bytes@),
    {
        text_of(self.bytes.as_slice())
    }
}

/// The line that chunks bring, read one after the other, or nothing where it is
/// too long.
pub open spec fn line_of_chunks(chunks: Seq<Seq<u8>>, start: Seq<u8>, max: usize) -> Option<Seq<u8>>
    decreases chunks.len(),
{
    if chunks.len() == 0 {
        Some(start)
    } else {
        let c = chunks[0];
        match line_step(start.len(), c, max) {
            LineStep::TooLong { .. } => None,
            LineStep::Done { .. } => Some(start + c.subrange(0, line_end(c))),
            LineStep::More { .. } => line_of_chunks(chunks.drop_first(), start + c, max),
        }
    }
}

/// All chunks, one behind the other.
pub open spec fn joined_chunks(chunks: Seq<Seq<u8>>) -> Seq<u8>
    decreases chunks.len(),
{
    if chunks.len() == 0 {
        Seq::empty()
    } else {
        chunks[0] + joined_chunks(chunks.drop_first())
    }
}

/// Reads a line out of what comes in `chunks`, up to its line feed or to the end;
/// nothing where it is longer than `max`.
pub fn read_line_capped(chunks: &Vec<Vec<u8>>, max: usize) -> (r: Option<String>)
    ensures
        match r {
            Some(text) => line_of_chunks(crate::wire::views(chunks@), Seq::empty(), max) is Some
                && text@ == shown_text(
                line_of_chunks(crate::wire::views(chunks@), Seq::empty(), max)->0,
            ) && text@ == lossy_text(
                line_of_chunks(crate::wire::views(chunks@), Seq::empty(), max)->0,
            ),
            None => line_of_chunks(crate::wire::views(chunks@), Seq::empty(), max) is None,
        },
{
    let ghost all = crate::wire::views(chunks@);
    let mut line = LineReader::new();
    let mut i: usize = 0;
    assert(all.skip(0) =~= all);
    while i < chunks.len()
        invariant
            i <= chunks@.len(),
            all == crate::wire::views(chunks@),
            line.bytes@.len() <= max,
            line_of_chunks(all.skip(i as int), line.bytes@, max) == line_of_chunks(
                all,
                Seq::empty(),
                max,
            ),
        decreases chunks@.len() - i,
    {
        let ghost before = line.bytes@;
        proof {
            assert(all.skip(i as int)[0] == chunks@[i as int]@);
            assert(all.skip(i as int).drop_first() =~= all.skip(i + 1));
        }
        match line.feed(chunks[i].as_slice(), max) {
            LineStep::TooLong { .. } => {
                return None;
            },
            LineStep::Done { .. } => {
                return Some(line.text());
            },
            LineStep::More { .. } => {
                proof {
                    let c = chunks@[i as int]@;
                    lemma_open_line(c);
                    assert(c.subrange(0, line_end(c)) =~= c);
                }
            },
        }
        i = i + 1;
    }
    assert(all.skip(i as int) =~= Seq::empty());
    Some(line.text())
}

proof fn lemma_open_line(s: Seq<u8>)
    ensures
        !line_complete(s) ==> line_end(s) == s.len(),
        0 <= line_end(s) <= s.len(),
    decreases s.len(),
{
    if s.len() > 0 {
        let t = s.drop_first();
        lemma_open_line(t);
        if line_complete(t) {
            let k = t.index_of(10);
            assert(s[k + 1] == 10);
        }
        if s[0] == 10 {
            assert(s.contains(s[0]));
        }
    }
}

proof fn lemma_line_over_cut(a: Seq<u8>, b: Seq<u8>)
    ensures
        line_complete(a) ==> line_end(a + b) == line_end(a) && line_complete(a + b),
        !line_complete(a) ==> line_end(a + b) == a.len() + line_end(b) && line_complete(a + b)
            == line_complete(b),
    decreases a.len(),
{
    let s = a + b;
    if a.len() == 0 {
        assert(s =~= b);
    } else {
        let t = a.drop_first();
        assert(s.drop_first() =~= t + b);
        lemma_line_over_cut(t, b);
        if line_complete(a) {
            let k = a.index_of(10);
            assert(s[k] == 10);
            if a[0] != 10 {
                assert(t[k - 1] == 10);
            }
        } else {
            assert(a[0] != 10) by {
                if a[0] == 10 {
                    assert(a.contains(a[0]));
                }
            }
            assert(!line_complete(t)) by {
                if line_complete(t) {
                    let k = t.index_of(10);
                    assert(a[k + 1] == 10);
                }
            }
            if line_complete(s) {
                let k = s.index_of(10);
                if k < a.len() {
                    assert(a[k] == 10);
                }
                assert(b[k - a.len()] == 10);
            }
            if line_complete(b) {
                let k = b.index_of(10);
                assert(s[a.len() + k] == 10);
            }
        }
    }
}

/// How what a client sends is cut into pieces does not matter: the line is read
/// up to its first line feed, and refused exactly where it is longer than the cap.
pub proof fn cuts_do_not_matter(chunks: Seq<Seq<u8>>, start: Seq<u8>, max: usize)
    requires
        start.len() <= max,
    ensures
        ({
            let s = joined_chunks(chunks);
            line_of_chunks(chunks, start, max) == if start.len() + line_end(s) <= max {
                Some(start + s.subrange(0, line_end(s)))
            } else {
                None::<Seq<u8>>
            }
        }),
    decreases chunks.len(),
{
    if chunks.len() == 0 {
        assert(start + Seq::<u8>::empty().subrange(0, 0) =~= start);
    } else {
        let c = chunks[0];
        let rest = joined_chunks(chunks.drop_first());
        let s = c + rest;
        lemma_line_over_cut(c, rest);
        lemma_open_line(c);
        lemma_open_line(rest);
        if start.len() + line_end(c) <= max {
            if line_complete(c) {
                assert(s.subrange(0, line_end(s)) =~= c.subrange(0, line_end(c)));
            } else {
                cuts_do_not_matter(chunks.drop_first(), start + c, max);
                assert((start + c) + rest.subrange(0, line_end(rest)) =~= start + s.subrange(
                    0,
                    line_end(s),
                ));
            }
        }
    }
}

/// The answer to a line that is no command; `e` says why.
pub fn bad_request(e: &str) -> (r: CmdResponse)
    ensures
        r@ == failure(0, "bad json: "@ + e@),
{
    let mut msg = "bad json: ".to_owned();
    msg.append(e);
    CmdResponse::err(0, msg)
}

/// Why a client whose first line is no subscription is turned away.
pub fn bad_opening(e: &str) -> (r: String)
    ensures
        r@ == "opening line not a Subscribe: "@ + e@,
{
    let mut msg = "opening line not a Subscribe: ".to_owned();
    msg.append(e);
    msg
}

/// A line ends behind its first line feed, or with what there is.
pub proof fn line_ends_behind_its_line_feed(s: Seq<u8>, i: int)
    requires
        0 <= i <= s.len(),
        forall|j: int| 0 <= j < i ==> #[trigger] s[j] != 10,
        i == s.len() || s[i] == 10,
    ensures
        line_end(s) == if i < s.len() {
            i + 1
        } else {
            i
        },
        line_complete(s) == (i < s.len()),
{
    lemma_line_end(s, i);
}

/// A line that a client sends is read as the text that it encodes, with its line feed,
/// however it is cut into pieces; what follows the line feed is not part of it.
pub proof fn sent_line_is_read(
    chunks: Seq<Seq<u8>>,
    text: Seq<char>,
    more: Seq<u8>,
    max: usize,
)
    requires
        encode_utf8(text).len() > 0,
        encode_utf8(text).last() == 10,
        forall|j: int| 0 <= j < encode_utf8(text).len() - 1 ==> #[trigger] encode_utf8(text)[j] != 10,
        joined_chunks(chunks) == encode_utf8(text) + more,
    ensures
        encode_utf8(text).len() <= max ==> line_of_chunks(chunks, Seq::empty(), max) == Some(
            encode_utf8(text),
        ) && shown_text(line_of_chunks(chunks, Seq::empty(), max)->0) == text,
        encode_utf8(text).len() > max ==> line_of_chunks(chunks, Seq::empty(), max) is None,
{
    let line = encode_utf8(text);
    let s = line + more;
    let i = line.len() - 1;
    assert(s[i] == 10);
    assert forall|j: int| 0 <= j < i implies #[trigger] s[j] != 10 by {
        assert(line[j] != 10);
    }
    lemma_line_end(s, i);
    cuts_do_not_matter(chunks, Seq::empty(), max);
    assert(Seq::<u8>::empty() + s.subrange(0, line.len() as int) =~= line);
    encoded_text_is_shown(text);
}

/// A line goes on until its line feed, and what is taken of a piece is what belongs to
/// the line.
pub proof fn line_goes_on_until_it_ends(len: nat, chunk: Seq<u8>, max: usize)
    requires
        chunk.len() <= usize::MAX,
    ensures
        line_step(len, chunk, max) is TooLong <==> len + line_end(chunk) > max,
        line_step(len, chunk, max) is Done ==> chunk.contains(10),
        line_step(len, chunk, max) is More ==> !chunk.contains(10),
        line_step(len, chunk, max) matches LineStep::Done { taken } ==> taken == line_end(chunk),
        line_step(len, chunk, max) matches LineStep::More { taken } ==> taken == chunk.len(),
{
    lemma_open_line(chunk);
}

} // verus!
