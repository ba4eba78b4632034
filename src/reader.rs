use vstd::prelude::*;
use vstd::std_specs::iter::IteratorSpec;

use crate::width::push_char;

verus! {

/// `s` without one trailing line feed.
pub open spec fn strip_newline(s: Seq<char>) -> Seq<char> {
    if s.len() > 0 && s.last() == '\n' {
        s.drop_last()
    } else {
        s
    }
}

/// Copies `raw` without one trailing line feed.
pub fn trim_newline(raw: &str) -> (r: String)
    ensures
        r@ == strip_newline(raw@),
{
    let mut out = String::new();
    let mut it = raw.chars();
    let ghost all = raw@;
    let ghost mut n: int = 0;
    // the last character seen, held back until the next one shows it is not
    // the final line feed
    let mut held: Option<char> = None;
    proof {
        vstd::string::axiom_spec_iter(raw);
        assert(all.take(0) =~= Seq::<char>::empty());
    }
    loop
        invariant
            all == raw@,
            0 <= n <= all.len(),
            it.remaining() == all.skip(n),
            n == 0 ==> held is None && out@.len() == 0,
            n > 0 ==> held == Some(all[n - 1]) && out@ == all.take(n - 1),
        decreases all.len() - n,
    {
        match it.next() {
            None => {
                proof {
                    broadcast use vstd::string::next_postcondition;
                    assert(all.len() == n);
                }
                match held {
                    Some(p) => {
                        if p != '\n' {
                            push_char(&mut out, p);
                            assert(out@ =~= all) by {
                                assert(all.take(n - 1).push(all[n - 1]) =~= all);
                            }
                        } else {
                            assert(out@ =~= all.drop_last());
                        }
                    },
                    None => {
                        assert(out@ =~= all);
                    },
                }
                return out;
            },
            Some(c) => {
                proof {
                    broadcast use vstd::string::next_postcondition;
                    assert(all.skip(n)[0] == all[n]);
                    assert(all.skip(n).drop_first() =~= all.skip(n + 1));
                }
                match held {
                    Some(p) => {
                        push_char(&mut out, p);
                        assert(all.take(n - 1).push(all[n - 1]) =~= all.take(n));
                    },
                    None => {
                        assert(out@ =~= all.take(0));
                    },
                }
                held = Some(c);
                proof {
                    n = n + 1;
                }
            },
        }
    }
}

/// What a request for the next line found.
#[derive(Clone, Copy, Debug, PartialEq, Eq, Structural)]
pub enum LineRead {
    /// The first line was handed out; it is in the buffer.
    Ready,
    /// The stream must be read; its text goes to `accept_line`.
    Fetch,
    /// The stream has ended; no more lines come.
    Exhausted,
}

/// A source of lines over a byte stream that keeps the first line aside, so
/// that it can be looked at before the lines are handed out one by one.
/// The reads themselves are made by the caller.
pub struct InputReader {
    first_line: String,
    /// The first line has yet to be handed out.
    pending: bool,
    /// The stream has ended.
    exhausted: bool,
}

impl InputReader {
    /// The first line, without its line feed.
    pub closed spec fn first(&self) -> Seq<char> {
        self.first_line@
    }

    pub closed spec fn is_pending(&self) -> bool {
        self.pending
    }

    pub closed spec fn is_exhausted(&self) -> bool {
        self.exhausted
    }

    /// Starts from the text of the stream's first read, line feed included;
    /// an empty text means an empty stream.
    pub fn new(raw: &str) -> (r: InputReader)
        ensures
            r.first() == strip_newline(raw@),
            r.is_pending() == (raw@.len() > 0),
            r.is_exhausted() == (raw@.len() == 0),
    {
        let first_line = trim_newline(raw);
        let empty = raw.is_empty();
        proof {
            assert(empty == (raw@.len() == 0)) by {
                if raw@.len() == 0 {
                    assert(raw@ =~= Seq::<char>::empty());
                }
            }
        }
        InputReader { first_line, pending: !empty, exhausted: empty }
    }

    /// The first line, for sniffing its language.
    pub fn first_line(&self) -> (r: &str)
        ensures
            r@ == self.first(),
    {
        self.first_line.as_str()
    }

    /// Hands out the first line into `buf` if it is still held, or says
    /// whether the stream must be read or has ended.
    pub fn read_line(&mut self, buf: &mut String) -> (r: LineRead)
        ensures
            final(self).first() == old(self).first(),
            final(self).is_exhausted() == old(self).is_exhausted(),
            !final(self).is_pending(),
            old(self).is_pending() ==> r == LineRead::Ready && final(buf)@ == old(self).first(),
            !old(self).is_pending() ==> final(buf)@ == old(buf)@ && r == (if old(self).is_exhausted() {
                LineRead::Exhausted
            } else {
                LineRead::Fetch
            }),
    {
        if self.pending {
            self.pending = false;
            *buf = self.first_line.clone();
            LineRead::Ready
        } else if self.exhausted {
            LineRead::Exhausted
        } else {
            LineRead::Fetch
        }
    }

    /// Takes the text of one read of the stream: puts the line without its
    /// line feed into `buf` and returns true, or, for an empty text, marks
    /// the stream ended and returns false.
    pub fn accept_line(&mut self, raw: &str, buf: &mut String) -> (r: bool)
        ensures
            r == (raw@.len() > 0),
            final(buf)@ == strip_newline(raw@),
            final(self).first() == old(self).first(),
            final(self).is_pending() == old(self).is_pending(),
            final(self).is_exhausted() == (old(self).is_exhausted() || !r),
    {
        *buf = trim_newline(raw);
        let empty = raw.is_empty();
        proof {
            if raw@.len() == 0 {
                assert(raw@ =~= Seq::<char>::empty());
            }
        }
        if empty {
            self.exhausted = true;
        }
        !empty
    }
}

} // verus!
