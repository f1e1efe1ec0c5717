//! A CSV record reader that finds where records end and where their fields
//! are separated, without decoding the fields.
use vstd::prelude::*;

verus! {

/// `memchr::memchr`: the index of the first occurrence of `needle` in
/// `haystack`, or `None` when there is none (as its documentation states).
#[verifier::external_body]
fn find_byte(needle: u8, haystack: &[u8]) -> (r: Option<usize>)
    ensures
        r matches Some(i) ==> i < haystack@.len() && haystack@[i as int] == needle && forall|k: int|
            0 <= k < i ==> haystack@[k] != needle,
        r is None ==> forall|k: int| 0 <= k < haystack@.len() ==> haystack@[k] != needle,
{
    memchr::memchr(needle, haystack)
}

/// `memchr::memchr3`: the index of the first byte of `haystack` equal to one
/// of the three needles, or `None` when there is none (as its documentation
/// states).
#[verifier::external_body]
fn find_byte3(n1: u8, n2: u8, n3: u8, haystack: &[u8]) -> (r: Option<usize>)
    ensures
        r matches Some(i) ==> i < haystack@.len() && (haystack@[i as int] == n1 || haystack@[
            i as int
        ] == n2 || haystack@[i as int] == n3) && forall|k: int|
            0 <= k < i ==> haystack@[k] != n1 && haystack@[k] != n2 && haystack@[k] != n3,
        r is None ==> forall|k: int|
            0 <= k < haystack@.len() ==> haystack@[k] != n1 && haystack@[k] != n2 && haystack@[k]
                != n3,
{
    memchr::memchr3(n1, n2, n3, haystack)
}

/// What one call of `RecordReader::read_record` found.
#[derive(Debug, Clone, Copy, PartialEq, Eq, Structural)]
pub enum ReadRecordResult {
    /// The input ended in the middle of a record.
    InputEmpty,
    /// A carriage return between records was skipped.
    Cr,
    /// A line feed between records was skipped.
    Lf,
    /// A record ended.
    Record,
    /// There is no record left.
    End,
}

/// Where the reader stands inside a record.
#[derive(Debug, Clone, Copy, PartialEq, Eq, Structural)]
pub enum RecordReaderState {
    /// Outside quotes.
    Unquoted,
    /// Inside quotes.
    Quoted,
    /// Just after a quote met inside quotes: either the closing quote or the
    /// first of two quotes that stand for one.
    Quote,
}

/// What a byte means to the reader.
#[derive(Debug, Clone, Copy, PartialEq, Eq, Structural)]
pub enum Event {
    Nothing,
    /// A field separator.
    Separator,
    /// The end of the record.
    EndOfRecord,
}

/// The state that follows `st` on byte `b`, and what `b` means.
pub open spec fn step(st: RecordReaderState, b: u8, quote: u8, delimiter: u8) -> (RecordReaderState, Event) {
    match st {
        RecordReaderState::Unquoted => if b == delimiter {
            (RecordReaderState::Unquoted, Event::Separator)
        } else if b == 10u8 {
            (RecordReaderState::Unquoted, Event::EndOfRecord)
        } else if b == quote {
            (RecordReaderState::Quoted, Event::Nothing)
        } else {
            (RecordReaderState::Unquoted, Event::Nothing)
        },
        RecordReaderState::Quoted => if b == quote {
            (RecordReaderState::Quote, Event::Nothing)
        } else {
            (RecordReaderState::Quoted, Event::Nothing)
        },
        RecordReaderState::Quote => if b == quote {
            (RecordReaderState::Quoted, Event::Nothing)
        } else if b == delimiter {
            (RecordReaderState::Unquoted, Event::Separator)
        } else if b == 10u8 {
            (RecordReaderState::Unquoted, Event::EndOfRecord)
        } else {
            (RecordReaderState::Unquoted, Event::Nothing)
        },
    }
}

/// The state reached from `st` after the bytes of `s`.
pub open spec fn final_state(st: RecordReaderState, s: Seq<u8>, quote: u8, delimiter: u8) -> RecordReaderState
    decreases s.len(),
{
    if s.len() == 0 {
        st
    } else {
        step(final_state(st, s.drop_last(), quote, delimiter), s.last(), quote, delimiter).0
    }
}

/// The positions of the field separators of `s`, reading from state `st`.
pub open spec fn separators(st: RecordReaderState, s: Seq<u8>, quote: u8, delimiter: u8) -> Seq<int>
    decreases s.len(),
{
    if s.len() == 0 {
        Seq::empty()
    } else {
        let rest = separators(st, s.drop_last(), quote, delimiter);
        if step(final_state(st, s.drop_last(), quote, delimiter), s.last(), quote, delimiter).1
            == Event::Separator {
            rest.push(s.len() - 1)
        } else {
            rest
        }
    }
}

/// The position of the first byte of `s` that ends a record, reading from
/// state `st`.
pub open spec fn first_end(st: RecordReaderState, s: Seq<u8>, quote: u8, delimiter: u8) -> Option<int>
    decreases s.len(),
{
    if s.len() == 0 {
        None
    } else {
        match first_end(st, s.drop_last(), quote, delimiter) {
            Some(k) => Some(k),
            None => if step(final_state(st, s.drop_last(), quote, delimiter), s.last(), quote, delimiter).1
                == Event::EndOfRecord {
                Some(s.len() - 1)
            } else {
                None
            },
        }
    }
}

/// Adds `offset` to each position.
pub open spec fn shifted(s: Seq<int>, offset: int) -> Seq<usize> {
    s.map_values(|p: int| (p + offset) as usize)
}

proof fn lemma_extend(st: RecordReaderState, s: Seq<u8>, pos: int, quote: u8, delimiter: u8)
    requires
        0 <= pos < s.len(),
    ensures
        ({
            let (next, ev) = step(final_state(st, s.take(pos), quote, delimiter), s[pos], quote, delimiter);
            &&& final_state(st, s.take(pos + 1), quote, delimiter) == next
            &&& separators(st, s.take(pos + 1), quote, delimiter) == if ev == Event::Separator {
                separators(st, s.take(pos), quote, delimiter).push(pos)
            } else {
                separators(st, s.take(pos), quote, delimiter)
            }
            &&& first_end(st, s.take(pos + 1), quote, delimiter) == match first_end(st, s.take(pos), quote, delimiter) {
                Some(k) => Some(k),
                None => if ev == Event::EndOfRecord { Some(pos) } else { None },
            }
        }),
{
    assert(s.take(pos + 1).drop_last() == s.take(pos));
    assert(s.take(pos + 1).last() == s[pos]);
}

proof fn lemma_skip_unquoted(st: RecordReaderState, s: Seq<u8>, pos: int, j: int, quote: u8, delimiter: u8)
    requires
        0 <= pos,
        0 <= j,
        pos + j <= s.len(),
        final_state(st, s.take(pos), quote, delimiter) == RecordReaderState::Unquoted,
        forall|k: int| pos <= k < pos + j ==> s[k] != quote && s[k] != delimiter && s[k] != 10u8,
    ensures
        final_state(st, s.take(pos + j), quote, delimiter) == RecordReaderState::Unquoted,
        separators(st, s.take(pos + j), quote, delimiter) == separators(st, s.take(pos), quote, delimiter),
        first_end(st, s.take(pos + j), quote, delimiter) == first_end(st, s.take(pos), quote, delimiter),
    decreases j,
{
    if j > 0 {
        lemma_skip_unquoted(st, s, pos, j - 1, quote, delimiter);
        lemma_extend(st, s, pos + j - 1, quote, delimiter);
    }
}

proof fn lemma_skip_quoted(st: RecordReaderState, s: Seq<u8>, pos: int, j: int, quote: u8, delimiter: u8)
    requires
        0 <= pos,
        0 <= j,
        pos + j <= s.len(),
        final_state(st, s.take(pos), quote, delimiter) == RecordReaderState::Quoted,
        forall|k: int| pos <= k < pos + j ==> s[k] != quote,
    ensures
        final_state(st, s.take(pos + j), quote, delimiter) == RecordReaderState::Quoted,
        separators(st, s.take(pos + j), quote, delimiter) == separators(st, s.take(pos), quote, delimiter),
        first_end(st, s.take(pos + j), quote, delimiter) == first_end(st, s.take(pos), quote, delimiter),
    decreases j,
{
    if j > 0 {
        lemma_skip_quoted(st, s, pos, j - 1, quote, delimiter);
        lemma_extend(st, s, pos + j - 1, quote, delimiter);
    }
}

proof fn lemma_first_end_bound(st: RecordReaderState, s: Seq<u8>, quote: u8, delimiter: u8)
    ensures
        first_end(st, s, quote, delimiter) matches Some(k) ==> 0 <= k < s.len(),
    decreases s.len(),
{
    if s.len() > 0 {
        lemma_first_end_bound(st, s.drop_last(), quote, delimiter);
    }
}

proof fn lemma_first_end_prefix(st: RecordReaderState, s: Seq<u8>, m: int, quote: u8, delimiter: u8)
    requires
        0 <= m <= s.len(),
        first_end(st, s.take(m), quote, delimiter) is Some,
    ensures
        first_end(st, s, quote, delimiter) == first_end(st, s.take(m), quote, delimiter),
    decreases s.len() - m,
{
    if m < s.len() {
        lemma_extend(st, s, m, quote, delimiter);
        lemma_first_end_prefix(st, s, m + 1, quote, delimiter);
    } else {
        assert(s.take(m) == s);
    }
}

proof fn lemma_shifted_push(s: Seq<int>, p: int, offset: int)
    ensures
        shifted(s.push(p), offset) == shifted(s, offset).push((p + offset) as usize),
{
    assert(shifted(s.push(p), offset) =~= shifted(s, offset).push((p + offset) as usize));
}

/// Reads CSV records chunk by chunk: each call of `read_record` looks at the
/// next chunk of input and says whether a record ended in it.
#[derive(Debug)]
pub struct RecordReader {
    quote: u8,
    delimiter: u8,
    state: RecordReaderState,
    record_was_read: bool,
}

impl RecordReader {
    pub closed spec fn spec_quote(&self) -> u8 {
        self.quote
    }

    pub closed spec fn spec_delimiter(&self) -> u8 {
        self.delimiter
    }

    /// Where the reader stands inside the current record.
    pub closed spec fn spec_state(&self) -> RecordReaderState {
        self.state
    }

    /// Whether the reader stands between records.
    pub closed spec fn between_records(&self) -> bool {
        self.record_was_read
    }

    pub fn new(quote: u8, delimiter: u8) -> (r: Self)
        ensures
            r.spec_quote() == quote,
            r.spec_delimiter() == delimiter,
            r.spec_state() == RecordReaderState::Unquoted,
            r.between_records(),
    {
        Self {
            quote,
            delimiter,
            state: RecordReaderState::Unquoted,
            // Must be true at the beginning to avoid counting one record for empty input
            record_was_read: true,
        }
    }

    /// Reads the next chunk `input` of the current record. The positions of
    /// the field separators found in it are pushed to `seps`, shifted by
    /// `seps_offset`. Returns what was found, and how many bytes of `input`
    /// were consumed.
    pub fn read_record(&mut self, input: &[u8], seps_offset: usize, seps: &mut Vec<usize>) -> (r: (
        ReadRecordResult,
        usize,
    ))
        requires
            seps_offset + input@.len() <= usize::MAX,
        ensures
            r.1 <= input@.len(),
            final(self).spec_quote() == old(self).spec_quote(),
            final(self).spec_delimiter() == old(self).spec_delimiter(),
            input@.len() == 0 ==> final(seps)@ == old(seps)@ && final(self).spec_state() == old(
                self,
            ).spec_state() && final(self).between_records() && r.1 == 0 && if old(
                self,
            ).between_records() {
                r.0 == ReadRecordResult::End
            } else {
                r.0 == ReadRecordResult::Record
            },
            input@.len() > 0 && old(self).between_records() && input@[0] == 10u8 ==> final(seps)@
                == old(seps)@ && *final(self) == *old(self) && r == (ReadRecordResult::Lf, 1usize),
            input@.len() > 0 && old(self).between_records() && input@[0] == 13u8 ==> final(seps)@
                == old(seps)@ && *final(self) == *old(self) && r == (ReadRecordResult::Cr, 1usize),
            input@.len() > 0 && !(old(self).between_records() && (input@[0] == 10u8 || input@[0]
                == 13u8)) ==> ({
                let st = old(self).spec_state();
                let q = old(self).spec_quote();
                let d = old(self).spec_delimiter();
                match first_end(st, input@, q, d) {
                    Some(k) => {
                        &&& r == (ReadRecordResult::Record, (k + 1) as usize)
                        &&& final(self).between_records()
                        &&& final(self).spec_state() == RecordReaderState::Unquoted
                        &&& final(seps)@ == old(seps)@ + shifted(
                            separators(st, input@.take(k), q, d),
                            seps_offset as int,
                        )
                    },
                    None => {
                        &&& r == (ReadRecordResult::InputEmpty, input@.len() as usize)
                        &&& !final(self).between_records()
                        &&& final(self).spec_state() == final_state(st, input@, q, d)
                        &&& final(seps)@ == old(seps)@ + shifted(
                            separators(st, input@, q, d),
                            seps_offset as int,
                        )
                    },
                }
            }),
    {
        let len = input.len();
        if len == 0 {
            if !self.record_was_read {
                self.record_was_read = true;
                return (ReadRecordResult::Record, 0);
            }
            return (ReadRecordResult::End, 0);
        }
        if self.record_was_read {
            if input[0] == 10u8 {
                return (ReadRecordResult::Lf, 1);
            } else if input[0] == 13u8 {
                return (ReadRecordResult::Cr, 1);
            }
        }
        self.record_was_read = false;
        let ghost st = self.state;
        let ghost q = self.quote;
        let ghost d = self.delimiter;
        let ghost s0 = seps@;
        let mut pos: usize = 0;
        proof {
            assert(input@.take(0) =~= Seq::<u8>::empty());
            assert(shifted(Seq::<int>::empty(), seps_offset as int) =~= Seq::<usize>::empty());
            assert(s0 + Seq::<usize>::empty() =~= s0);
        }
        while pos < len
            invariant
                len == input@.len(),
                seps_offset + len <= usize::MAX,
                pos <= len,
                q == self.quote,
                d == self.delimiter,
                0 < len,
                !(old(self).record_was_read && (input@[0] == 10u8 || input@[0] == 13u8)),
                q == old(self).quote,
                d == old(self).delimiter,
                st == old(self).state,
                s0 == old(seps)@,
                !self.record_was_read,
                self.state == final_state(st, input@.take(pos as int), q, d),
                first_end(st, input@.take(pos as int), q, d) is None,
                seps@ == s0 + shifted(separators(st, input@.take(pos as int), q, d), seps_offset as int),
            decreases len - pos,
        {
            match self.state {
                RecordReaderState::Unquoted => {
                    let rest = &input[pos..len];
                    match find_byte3(self.quote, self.delimiter, 10u8, rest) {
                        None => {
                            proof {
                                assert forall|k: int| pos <= k < pos + (len - pos) implies input@[k]
                                    != q && input@[k] != d && input@[k] != 10u8 by {
                                    assert(input@[k] == rest@[k - pos]);
                                }
                                lemma_skip_unquoted(st, input@, pos as int, (len - pos) as int, q, d);
                            }
                            pos = len;
                        },
                        Some(j) => {
                            proof {
                                assert forall|k: int| pos <= k < pos + j implies input@[k]
                                    != q && input@[k] != d && input@[k] != 10u8 by {
                                    assert(input@[k] == rest@[k - pos]);
                                }
                                lemma_skip_unquoted(st, input@, pos as int, j as int, q, d);
                                assert(input@[pos + j] == rest@[j as int]);
                                lemma_extend(st, input@, pos + j, q, d);
                            }
                            let at = pos + j;
                            let byte = input[at];
                            if byte == self.delimiter {
                                seps.push(seps_offset + at);
                                proof {
                                    lemma_shifted_push(
                                        separators(st, input@.take(at as int), q, d),
                                        at as int,
                                        seps_offset as int,
                                    );
                                }
                                pos = at + 1;
                            } else if byte == 10u8 {
                                proof {
                                    lemma_first_end_prefix(st, input@, at + 1, q, d);
                                }
                                self.record_was_read = true;
                                return (ReadRecordResult::Record, at + 1);
                            } else {
                                self.state = RecordReaderState::Quoted;
                                pos = at + 1;
                            }
                        },
                    }
                },
                RecordReaderState::Quoted => {
                    let rest = &input[pos..len];
                    match find_byte(self.quote, rest) {
                        None => {
                            proof {
                                assert forall|k: int| pos <= k < pos + (len - pos) implies input@[k]
                                    != q by {
                                    assert(input@[k] == rest@[k - pos]);
                                }
                                lemma_skip_quoted(st, input@, pos as int, (len - pos) as int, q, d);
                            }
                            pos = len;
                        },
                        Some(j) => {
                            proof {
                                assert forall|k: int| pos <= k < pos + j implies input@[k] != q by {
                                    assert(input@[k] == rest@[k - pos]);
                                }
                                lemma_skip_quoted(st, input@, pos as int, j as int, q, d);
                                assert(input@[pos + j] == rest@[j as int]);
                                lemma_extend(st, input@, pos + j, q, d);
                            }
                            pos = pos + j + 1;
                            self.state = RecordReaderState::Quote;
                        },
                    }
                },
                RecordReaderState::Quote => {
                    let byte = input[pos];
                    proof {
                        lemma_extend(st, input@, pos as int, q, d);
                    }
                    if byte == self.quote {
                        self.state = RecordReaderState::Quoted;
                        pos += 1;
                    } else if byte == self.delimiter {
                        seps.push(seps_offset + pos);
                        proof {
                            lemma_shifted_push(
                                separators(st, input@.take(pos as int), q, d),
                                pos as int,
                                seps_offset as int,
                            );
                        }
                        self.state = RecordReaderState::Unquoted;
                        pos += 1;
                    } else if byte == 10u8 {
                        proof {
                            lemma_first_end_prefix(st, input@, pos + 1, q, d);
                        }
                        self.record_was_read = true;
                        self.state = RecordReaderState::Unquoted;
                        return (ReadRecordResult::Record, pos + 1);
                    } else {
                        self.state = RecordReaderState::Unquoted;
                        pos += 1;
                    }
                },
            }
        }
        assert(input@.take(len as int) == input@);
        (ReadRecordResult::InputEmpty, len)
    }
}

/// Adds `offset` to each position.
pub open spec fn offset_all(s: Seq<int>, offset: int) -> Seq<int> {
    s.map_values(|p: int| p + offset)
}

/// Reading `a` then `b` is reading `a + b`.
proof fn lemma_concat(st: RecordReaderState, a: Seq<u8>, b: Seq<u8>, quote: u8, delimiter: u8)
    ensures
        final_state(st, a + b, quote, delimiter) == final_state(
            final_state(st, a, quote, delimiter),
            b,
            quote,
            delimiter,
        ),
        separators(st, a + b, quote, delimiter) == separators(st, a, quote, delimiter) + offset_all(
            separators(final_state(st, a, quote, delimiter), b, quote, delimiter),
            a.len() as int,
        ),
        first_end(st, a, quote, delimiter) is None ==> first_end(st, a + b, quote, delimiter)
            == match first_end(final_state(st, a, quote, delimiter), b, quote, delimiter) {
            Some(k) => Some(k + a.len()),
            None => None,
        },
    decreases b.len(),
{
    let fs = final_state(st, a, quote, delimiter);
    if b.len() == 0 {
        assert(a + b == a);
        assert(offset_all(separators(fs, b, quote, delimiter), a.len() as int) =~= Seq::<int>::empty());
        assert(separators(st, a, quote, delimiter) + Seq::<int>::empty() =~= separators(st, a, quote, delimiter));
    } else {
        lemma_concat(st, a, b.drop_last(), quote, delimiter);
        assert((a + b).drop_last() == a + b.drop_last());
        assert((a + b).last() == b.last());
        let prev = separators(fs, b.drop_last(), quote, delimiter);
        assert(offset_all(prev.push(b.len() - 1), a.len() as int) =~= offset_all(prev, a.len() as int).push(
            (a + b).len() - 1,
        ));
        assert(separators(st, a, quote, delimiter) + offset_all(prev, a.len() as int).push(
            (a + b).len() - 1,
        ) =~= (separators(st, a, quote, delimiter) + offset_all(prev, a.len() as int)).push(
            (a + b).len() - 1,
        ));
    }
}

proof fn lemma_shifted_offset(s: Seq<int>, a: int, b: int)
    ensures
        shifted(offset_all(s, a), b) == shifted(s, a + b),
{
    assert(shifted(offset_all(s, a), b) =~= shifted(s, a + b));
}

proof fn lemma_shifted_concat(s: Seq<int>, t: Seq<int>, off: int)
    ensures
        shifted(s + t, off) == shifted(s, off) + shifted(t, off),
{
    assert(shifted(s + t, off) =~= shifted(s, off) + shifted(t, off));
}

/// The position of the first byte at or after `p` that is neither a line
/// feed nor a carriage return (or the length of `data`).
pub open spec fn skip_breaks(data: Seq<u8>, p: int) -> int
    decreases data.len() - p,
{
    if 0 <= p < data.len() && (data[p] == 10u8 || data[p] == 13u8) {
        skip_breaks(data, p + 1)
    } else {
        p
    }
}

/// The record of `data` that follows position `p`, a position between
/// records: line feeds and carriage returns are skipped, then the record
/// runs up to its end of line included, or to the end of `data`. Gives the
/// bytes of the record, the positions of its field separators and the
/// position that follows it; `None` when no record is left.
pub open spec fn next_record(data: Seq<u8>, p: int, quote: u8, delimiter: u8) -> Option<
    (Seq<u8>, Seq<int>, int),
> {
    let s = skip_breaks(data, p);
    if s >= data.len() {
        None
    } else {
        let rest = data.subrange(s, data.len() as int);
        match first_end(RecordReaderState::Unquoted, rest, quote, delimiter) {
            Some(k) => Some(
                (
                    rest.take(k + 1),
                    separators(RecordReaderState::Unquoted, rest.take(k), quote, delimiter),
                    s + k + 1,
                ),
            ),
            None => Some(
                (
                    rest,
                    separators(RecordReaderState::Unquoted, rest, quote, delimiter),
                    data.len() as int,
                ),
            ),
        }
    }
}

proof fn lemma_skip_breaks_bound(data: Seq<u8>, p: int)
    requires
        0 <= p <= data.len(),
    ensures
        p <= skip_breaks(data, p) <= data.len(),
        skip_breaks(data, p) < data.len() ==> data[skip_breaks(data, p)] != 10u8 && data[skip_breaks(data, p)] != 13u8,
    decreases data.len() - p,
{
    if 0 <= p < data.len() && (data[p] == 10u8 || data[p] == 13u8) {
        lemma_skip_breaks_bound(data, p + 1);
    }
}

proof fn lemma_record_fresh(data: Seq<u8>, c: int, e: int, q: u8, d: u8)
    requires
        0 <= c < e <= data.len(),
        first_end(RecordReaderState::Unquoted, data.subrange(c, e), q, d) is Some,
    ensures
        ({
            let k = first_end(RecordReaderState::Unquoted, data.subrange(c, e), q, d).unwrap();
            let rest = data.subrange(c, data.len() as int);
            &&& 0 <= k < e - c
            &&& first_end(RecordReaderState::Unquoted, rest, q, d) == Some(k)
            &&& rest.take(k + 1) == data.subrange(c, c + k + 1)
            &&& rest.take(k) == data.subrange(c, e).take(k)
        }),
{
    let input = data.subrange(c, e);
    let rest = data.subrange(c, data.len() as int);
    let k = first_end(RecordReaderState::Unquoted, input, q, d).unwrap();
    lemma_first_end_bound(RecordReaderState::Unquoted, input, q, d);
    assert(rest.take(e - c) == input);
    lemma_first_end_prefix(RecordReaderState::Unquoted, rest, e - c, q, d);
    assert(rest.take(k + 1) =~= data.subrange(c, c + k + 1));
    assert(rest.take(k) =~= input.take(k));
}

proof fn lemma_separators_sound(st: RecordReaderState, s: Seq<u8>, q: u8, d: u8)
    ensures
        forall|k: int| 0 <= k < separators(st, s, q, d).len() ==> 0 <= #[trigger] separators(st, s, q, d)[k] < s.len()
            && s[separators(st, s, q, d)[k]] == d,
        forall|k: int, l: int| 0 <= k < l < separators(st, s, q, d).len() ==> separators(st, s, q, d)[k] < separators(st, s, q, d)[l],
    decreases s.len(),
{
    if s.len() > 0 {
        let t = s.drop_last();
        lemma_separators_sound(st, t, q, d);
        let a = separators(st, s, q, d);
        let b = separators(st, t, q, d);
        assert forall|k: int| 0 <= k < a.len() implies 0 <= #[trigger] a[k] < s.len() && s[a[k]] == d by {
            if k < b.len() {
                assert(a[k] == b[k]);
                assert(s[b[k]] == t[b[k]]);
            }
        }
    }
}

/// Each field separator of a record stands, in the record, on a delimiter
/// byte, and the separators come in increasing order. A record is the input
/// from the position of its first byte, which is neither a line feed nor a
/// carriage return, to the position where the next read starts, further on.
pub proof fn law_record_shape(data: Seq<u8>, p: int, quote: u8, delimiter: u8)
    requires
        0 <= p <= data.len(),
    ensures
        next_record(data, p, quote, delimiter) matches Some((rec, seps, next)) ==> {
            &&& p < next <= data.len()
            &&& rec == data.subrange(skip_breaks(data, p), next)
            &&& rec.len() > 0 && rec[0] != 10u8 && rec[0] != 13u8
            &&& forall|k: int| 0 <= k < seps.len() ==> 0 <= #[trigger] seps[k] < rec.len() && rec[seps[k]] == delimiter
            &&& forall|k: int, l: int| 0 <= k < l < seps.len() ==> seps[k] < seps[l]
        },
        next_record(data, p, quote, delimiter) is None ==> skip_breaks(data, p) == data.len(),
{
    lemma_skip_breaks_bound(data, p);
    let start = skip_breaks(data, p);
    if start < data.len() {
        let rest = data.subrange(start, data.len() as int);
        lemma_first_end_bound(RecordReaderState::Unquoted, rest, quote, delimiter);
        match first_end(RecordReaderState::Unquoted, rest, quote, delimiter) {
            Some(k) => {
                let rec = rest.take(k + 1);
                lemma_separators_sound(RecordReaderState::Unquoted, rest.take(k), quote, delimiter);
                let seps = separators(RecordReaderState::Unquoted, rest.take(k), quote, delimiter);
                assert(rec == data.subrange(start, start + k + 1));
                assert(rec[0] == data[start]);
                assert forall|j: int| 0 <= j < seps.len() implies 0 <= #[trigger] seps[j] < rec.len() && rec[seps[j]] == delimiter by {
                    assert(rec[seps[j]] == rest.take(k)[seps[j]]);
                }
            },
            None => {
                lemma_separators_sound(RecordReaderState::Unquoted, rest, quote, delimiter);
                assert(rest[0] == data[start]);
            },
        }
    }
}

/// How many bytes of `s` equal `b`.
pub open spec fn count_byte(s: Seq<u8>, b: u8) -> nat
    decreases s.len(),
{
    if s.len() == 0 {
        0
    } else {
        count_byte(s.drop_last(), b) + if s.last() == b {
            1nat
        } else {
            0nat
        }
    }
}

/// Whether the bytes of `s` leave the reader outside quotes: an even number
/// of quote bytes.
pub open spec fn outside_quotes(s: Seq<u8>, quote: u8) -> bool {
    count_byte(s, quote) % 2 == 0
}

/// Whether the quote, the delimiter and the line feed are three different
/// bytes.
pub open spec fn distinct_bytes(quote: u8, delimiter: u8) -> bool {
    quote != delimiter && quote != 10u8 && delimiter != 10u8
}

proof fn lemma_state_parity(s: Seq<u8>, q: u8, d: u8)
    requires
        distinct_bytes(q, d),
    ensures
        (final_state(RecordReaderState::Unquoted, s, q, d) == RecordReaderState::Quoted)
            == !outside_quotes(s, q),
    decreases s.len(),
{
    if s.len() > 0 {
        lemma_state_parity(s.drop_last(), q, d);
    }
}

proof fn lemma_separators_exact(s: Seq<u8>, q: u8, d: u8)
    requires
        distinct_bytes(q, d),
    ensures
        forall|i: int|
            #![trigger separators(RecordReaderState::Unquoted, s, q, d).contains(i)]
            #![trigger s[i]]
            0 <= i < s.len() ==> (separators(RecordReaderState::Unquoted, s, q, d).contains(i) <==> (
            s[i] == d && outside_quotes(s.take(i), q))),
    decreases s.len(),
{
    if s.len() > 0 {
        let t = s.drop_last();
        let u = RecordReaderState::Unquoted;
        lemma_separators_exact(t, q, d);
        lemma_separators_sound(u, t, q, d);
        lemma_state_parity(t, q, d);
        let a = separators(u, s, q, d);
        let b = separators(u, t, q, d);
        assert forall|i: int| 0 <= i < s.len() implies (#[trigger] a.contains(i) <==> (s[i] == d
            && outside_quotes(s.take(i), q))) by {
            if i < t.len() {
                assert(s.take(i) == t.take(i));
                assert(s[i] == t[i]);
                if a.contains(i) {
                    let k = choose|k: int| 0 <= k < a.len() && a[k] == i;
                    if k < b.len() {
                        assert(b[k] == i);
                    }
                }
                if b.contains(i) {
                    let k = choose|k: int| 0 <= k < b.len() && b[k] == i;
                    assert(a[k] == i);
                }
            } else {
                assert(s.take(i) == t);
                if b.contains(i) {
                    let k = choose|k: int| 0 <= k < b.len() && b[k] == i;
                    assert(b[k] < t.len());
                }
                if a.contains(i) && !b.contains(i) {
                    let k = choose|k: int| 0 <= k < a.len() && a[k] == i;
                    if k < b.len() {
                        assert(b[k] == i);
                    }
                }
                if s[i] == d && outside_quotes(s.take(i), q) {
                    assert(a.last() == i);
                }
            }
        }
    }
}

/// Whether position `j` of `s` holds a line feed outside quotes.
pub open spec fn unquoted_line_feed(s: Seq<u8>, j: int, quote: u8) -> bool {
    s[j] == 10u8 && outside_quotes(s.take(j), quote)
}

proof fn lemma_first_end_exact(s: Seq<u8>, q: u8, d: u8)
    requires
        distinct_bytes(q, d),
    ensures
        match first_end(RecordReaderState::Unquoted, s, q, d) {
            Some(k) => 0 <= k < s.len() && unquoted_line_feed(s, k, q) && forall|j: int|
                0 <= j < k ==> !#[trigger] unquoted_line_feed(s, j, q),
            None => forall|j: int| 0 <= j < s.len() ==> !#[trigger] unquoted_line_feed(s, j, q),
        },
    decreases s.len(),
{
    if s.len() > 0 {
        let t = s.drop_last();
        lemma_first_end_exact(t, q, d);
        lemma_state_parity(t, q, d);
        assert forall|j: int| 0 <= j < t.len() implies #[trigger] unquoted_line_feed(s, j, q)
            == unquoted_line_feed(t, j, q) by {
            assert(s.take(j) == t.take(j));
        }
        assert(s.take(t.len() as int) == t);
    }
}

/// The whole shape of a record: it is not empty; its field separators are
/// exactly the positions of delimiter bytes outside quotes, in increasing
/// order; and a line feed outside quotes can only be its last byte.
pub proof fn law_record_fields(data: Seq<u8>, p: int, quote: u8, delimiter: u8)
    requires
        0 <= p <= data.len(),
        distinct_bytes(quote, delimiter),
    ensures
        next_record(data, p, quote, delimiter) matches Some((rec, seps, next)) ==> {
            &&& rec.len() > 0
            &&& forall|k: int, l: int| 0 <= k < l < seps.len() ==> seps[k] < seps[l]
            &&& forall|i: int|
                #![trigger seps.contains(i)]
                #![trigger rec[i]]
                0 <= i < rec.len() ==> (seps.contains(i) <==> (rec[i] == delimiter
                    && outside_quotes(rec.take(i), quote)))
            &&& forall|j: int|
                0 <= j < rec.len() && #[trigger] unquoted_line_feed(rec, j, quote) ==> j == rec.len()
                    - 1
        },
{
    law_record_shape(data, p, quote, delimiter);
    lemma_skip_breaks_bound(data, p);
    let start = skip_breaks(data, p);
    if start < data.len() {
        let u = RecordReaderState::Unquoted;
        let rest = data.subrange(start, data.len() as int);
        lemma_first_end_exact(rest, quote, delimiter);
        match first_end(u, rest, quote, delimiter) {
            Some(k) => {
                let rec = rest.take(k + 1);
                let head = rest.take(k);
                let seps = separators(u, head, quote, delimiter);
                lemma_separators_exact(head, quote, delimiter);
                lemma_separators_sound(u, head, quote, delimiter);
                assert forall|i: int| 0 <= i < rec.len() implies (#[trigger] seps.contains(i) <==> (
                rec[i] == delimiter && outside_quotes(rec.take(i), quote))) by {
                    if i < k {
                        assert(rec.take(i) == head.take(i));
                        assert(rec[i] == head[i]);
                    } else {
                        assert(rec[i] == rest[k]);
                        if seps.contains(i) {
                            let m = choose|m: int| 0 <= m < seps.len() && seps[m] == i;
                            assert(seps[m] < head.len());
                        }
                    }
                }
                assert forall|j: int| 0 <= j < rec.len() && #[trigger] unquoted_line_feed(
                    rec,
                    j,
                    quote,
                ) implies j == rec.len() - 1 by {
                    assert(rec.take(j) == rest.take(j));
                    assert(rec[j] == rest[j]);
                    if j < k {
                        assert(!unquoted_line_feed(rest, j, quote));
                    }
                }
            },
            None => {
                lemma_separators_exact(rest, quote, delimiter);
            },
        }
    }
}

/// Reads the CSV records of an input held in memory, through a buffer of
/// `capacity` bytes, as a buffered reader of a stream would: each record is
/// given back with the positions, relative to its start, of its field
/// separators.
pub struct BufferedRecordReader {
    data: Vec<u8>,
    capacity: usize,
    consumed: usize,
    buf_end: usize,
    reader: RecordReader,
    record: Vec<u8>,
    seps: Vec<usize>,
    actual_buffer_position: Option<usize>,
}

impl BufferedRecordReader {
    /// The whole input.
    pub closed spec fn input(&self) -> Seq<u8> {
        self.data@
    }

    pub closed spec fn spec_capacity(&self) -> usize {
        self.capacity
    }

    pub closed spec fn spec_quote(&self) -> u8 {
        self.reader.quote
    }

    pub closed spec fn spec_delimiter(&self) -> u8 {
        self.reader.delimiter
    }

    /// How far the input was read.
    pub closed spec fn position(&self) -> int {
        self.consumed + match self.actual_buffer_position {
            Some(k) => k as int,
            None => 0,
        }
    }

    pub closed spec fn wf(&self) -> bool {
        &&& self.consumed <= self.buf_end <= self.data@.len()
        &&& self.position() <= self.buf_end
        &&& self.reader.record_was_read
        &&& (self.reader.state == RecordReaderState::Unquoted || self.position()
            == self.data@.len())
        &&& (self.capacity == 0 ==> self.consumed == self.buf_end
            && self.actual_buffer_position is None)
    }

    pub fn with_capacity(data: Vec<u8>, capacity: usize, quote: u8, delimiter: u8) -> (r: Self)
        ensures
            r.wf(),
            r.input() == data@,
            r.spec_capacity() == capacity,
            r.spec_quote() == quote,
            r.spec_delimiter() == delimiter,
            r.position() == 0,
            0 <= r.position() <= r.input().len(),
    {
        Self {
            data,
            capacity,
            consumed: 0,
            buf_end: 0,
            reader: RecordReader::new(quote, delimiter),
            record: Vec::new(),
            seps: Vec::new(),
            actual_buffer_position: None,
        }
    }

    /// Refills the buffer when it was all consumed.
    fn fill_buf(&mut self)
        requires
            old(self).consumed <= old(self).buf_end <= old(self).data@.len(),
        ensures
            final(self).consumed == old(self).consumed,
            old(self).consumed < old(self).buf_end ==> final(self).buf_end == old(self).buf_end,
            old(self).consumed == old(self).buf_end ==> final(self).buf_end == if old(self).consumed
                + old(self).capacity <= old(self).data@.len() {
                old(self).consumed + old(self).capacity
            } else {
                old(self).data@.len() as int
            },
            final(self).consumed <= final(self).buf_end <= final(self).data@.len(),
            final(self).data == old(self).data,
            final(self).capacity == old(self).capacity,
            final(self).reader == old(self).reader,
            final(self).record == old(self).record,
            final(self).seps == old(self).seps,
            final(self).actual_buffer_position == old(self).actual_buffer_position,
    {
        if self.consumed == self.buf_end {
            let left = self.data.len() - self.consumed;
            self.buf_end = if self.capacity <= left {
                self.consumed + self.capacity
            } else {
                self.data.len()
            };
        }
    }

    fn append(dst: &mut Vec<u8>, src: &[u8])
        ensures
            final(dst)@ == old(dst)@ + src@,
    {
        let mut i: usize = 0;
        while i < src.len()
            invariant
                i <= src@.len(),
                dst@ == old(dst)@ + src@.take(i as int),
            decreases src@.len() - i,
        {
            dst.push(src[i]);
            assert(src@.take(i + 1) == src@.take(i as int).push(src@[i as int]));
            i += 1;
        }
        assert(src@.take(i as int) == src@);
    }

    #[verifier::rlimit(80)]
    /// The next record and the positions of its field separators, or `None`
    /// when no record is left (always `None` with a capacity of zero, since
    /// nothing can then be read).
    pub fn read_record(&mut self) -> (r: Option<(Vec<u8>, Vec<usize>)>)
        requires
            old(self).wf(),
        ensures
            final(self).wf(),
            0 <= old(self).position() <= old(self).input().len(),
            0 <= final(self).position() <= final(self).input().len(),
            final(self).input() == old(self).input(),
            final(self).spec_capacity() == old(self).spec_capacity(),
            final(self).spec_quote() == old(self).spec_quote(),
            final(self).spec_delimiter() == old(self).spec_delimiter(),
            old(self).spec_capacity() == 0 ==> r is None,
            old(self).spec_capacity() > 0 ==> match next_record(
                old(self).input(),
                old(self).position(),
                old(self).spec_quote(),
                old(self).spec_delimiter(),
            ) {
                None => r is None && final(self).position() == old(self).input().len(),
                Some((rec, seps, next)) => (r matches Some((v, w)) && v@ == rec && w@ == shifted(
                    seps,
                    0,
                )) && final(self).position() == next,
            },
    {
        let ghost q = self.reader.quote;
        let ghost d = self.reader.delimiter;
        let ghost data = self.data@;
        let ghost p0 = self.position();
        self.record.clear();
        self.seps.clear();
        if let Some(last_pos) = self.actual_buffer_position.take() {
            self.consumed = self.consumed + last_pos;
        }
        let ghost start = skip_breaks(data, p0);
        proof {
            lemma_skip_breaks_bound(data, p0);
            assert(shifted(Seq::<int>::empty(), 0) =~= Seq::<usize>::empty());
        }
        loop
            invariant
                data == self.data@,
                q == self.reader.quote,
                d == self.reader.delimiter,
                self.consumed <= self.buf_end <= data.len(),
                self.actual_buffer_position is None,
                p0 == old(self).position(),
                p0 <= self.consumed,
                start == skip_breaks(data, p0),
                p0 <= start <= data.len(),
                start < data.len() ==> data[start] != 10u8 && data[start] != 13u8,
                self.capacity == old(self).capacity,
                data == old(self).data@,
                q == old(self).reader.quote,
                d == old(self).reader.delimiter,
                self.capacity == 0 ==> self.consumed == self.buf_end && self.reader.record_was_read,
                self.reader.record_was_read ==> {
                    &&& self.record@.len() == 0
                    &&& self.seps@.len() == 0
                    &&& skip_breaks(data, self.consumed as int) == start
                    &&& self.consumed <= start
                    &&& (self.reader.state == RecordReaderState::Unquoted || self.consumed
                        == data.len())
                },
                !self.reader.record_was_read ==> {
                    &&& start < self.consumed
                    &&& self.record@ == data.subrange(start, self.consumed as int)
                    &&& first_end(RecordReaderState::Unquoted, self.record@, q, d) is None
                    &&& self.reader.state == final_state(RecordReaderState::Unquoted, self.record@, q, d)
                    &&& self.seps@ == shifted(separators(RecordReaderState::Unquoted, self.record@, q, d), 0)
                },
            decreases data.len() - self.consumed,
        {
            self.fill_buf();
            let c = self.consumed;
            let e = self.buf_end;
            let input = &self.data[c..e];
            let rec_len = self.record.len();
            let ghost rec = self.record@;
            let ghost fs = self.reader.state;
            let ghost was = self.reader.record_was_read;
            let ghost seps_before = self.seps@;
            proof {
                assert(input@ == data.subrange(c as int, e as int));
                if was && c < e {
                    assert(data[c as int] == input@[0]);
                }
            }
            let (result, pos) = self.reader.read_record(input, rec_len, &mut self.seps);
            match result {
                ReadRecordResult::End => {
                    self.consumed = c + pos;
                    return None;
                },
                ReadRecordResult::Cr | ReadRecordResult::Lf => {
                    proof {
                        lemma_skip_breaks_bound(data, c + 1);
                    }
                    self.consumed = c + pos;
                },
                ReadRecordResult::InputEmpty => {
                    proof {
                        if was {
                            lemma_concat(RecordReaderState::Unquoted, rec, input@, q, d);
                            assert(rec + input@ == input@);
                        } else {
                            lemma_concat(RecordReaderState::Unquoted, rec, input@, q, d);
                            lemma_shifted_offset(separators(fs, input@, q, d), rec.len() as int, 0);
                            lemma_shifted_concat(
                                separators(RecordReaderState::Unquoted, rec, q, d),
                                offset_all(separators(fs, input@, q, d), rec.len() as int),
                                0,
                            );
                            assert(data.subrange(start, c as int) + data.subrange(c as int, e as int)
                                == data.subrange(start, e as int));
                        }
                    }
                    Self::append(&mut self.record, input);
                    self.consumed = c + pos;
                },
                ReadRecordResult::Record => {
                    proof {
                        let rest = data.subrange(start, data.len() as int);
                        let b = data.subrange(c as int, data.len() as int);
                        if was {
                            assert(skip_breaks(data, c as int) == c);
                            lemma_record_fresh(data, c as int, e as int, q, d);
                        } else if c == e {
                            assert(rec == rest);
                        } else {
                            assert(rest == rec + b);
                            assert(b.take(e - c) == input@);
                            lemma_first_end_prefix(fs, b, e - c, q, d);
                            lemma_concat(RecordReaderState::Unquoted, rec, b, q, d);
                            let k = pos - 1;
                            lemma_first_end_bound(fs, input@, q, d);
                            assert(0 <= k < input@.len());
                            assert(rec.len() == c - start);
                            assert(rest.take(rec.len() + k) =~= rec + input@.take(k));
                            assert(rest.take(rec.len() + k + 1) == rec + input@.take(k + 1));
                            lemma_concat(RecordReaderState::Unquoted, rec, input@.take(k), q, d);
                            lemma_shifted_offset(separators(fs, input@.take(k), q, d), rec.len() as int, 0);
                            lemma_shifted_concat(
                                separators(RecordReaderState::Unquoted, rec, q, d),
                                offset_all(separators(fs, input@.take(k), q, d), rec.len() as int),
                                0,
                            );
                        }
                    }
                    if rec_len == 0 {
                        self.actual_buffer_position = Some(pos);
                        let out = vstd::slice::slice_to_vec(&self.data[c..c + pos]);
                        let seps = self.seps.clone();
                        return Some((out, seps));
                    } else {
                        Self::append(&mut self.record, &self.data[c..c + pos]);
                        self.consumed = c + pos;
                        let out = self.record.clone();
                        let seps = self.seps.clone();
                        return Some((out, seps));
                    }
                },
            }
        }
    }
}

} // verus!
