use super::segments::split_by;
use super::segments::split_text;
use crate::text::push_char;
use crate::text::texts;
use vstd::prelude::*;

verus! {

/// Where the reading of segments stands: the segments picked so far, the text gathered for
/// the segment under way, and the number of the segment under way.
pub struct Reading {
    pub segments: Seq<Seq<char>>,
    pub current: Seq<char>,
    pub index: int,
}

/// The reading after one more piece of a line: the piece ends a segment, which is picked
/// if its number is the next one wanted.
pub open spec fn after_piece(state: Reading, piece: Seq<char>, indexes: Seq<usize>) -> Reading {
    Reading {
        segments: if state.index == indexes[state.segments.len() as int] {
            state.segments.push(state.current + piece)
        } else {
            state.segments
        },
        current: state.current,
        index: state.index + 1,
    }
}

/// The reading after the pieces of a line from `from` on, and whether the reading stopped
/// in the line because every wanted segment had been picked.
pub open spec fn after_pieces(
    state: Reading,
    pieces: Seq<Seq<char>>,
    from: int,
    indexes: Seq<usize>,
) -> (Reading, bool)
    decreases pieces.len() - from,
{
    if from < 0 || from >= pieces.len() {
        (state, false)
    } else if state.segments.len() >= indexes.len() {
        (state, true)
    } else {
        after_pieces(after_piece(state, pieces[from], indexes), pieces, from + 1, indexes)
    }
}

/// The reading after one line, and whether the reading stopped in the line.
///
/// A line without the delimiter belongs to the segment under way and is gathered if that
/// segment is wanted. A line with delimiters ends segments: its first piece ends the
/// segment under way, every further piece is a segment of its own, and the last segment
/// picked is taken back as the one under way, since the line does not end it.
pub open spec fn after_line(
    state: Reading,
    line: Seq<char>,
    indexes: Seq<usize>,
    delimiter: Seq<char>,
) -> (Reading, bool) {
    let pieces = split_by(line, delimiter);
    if pieces.len() > 1 {
        let first = if state.index == indexes[state.segments.len() as int] {
            Reading {
                segments: state.segments.push(state.current + pieces[0]),
                current: Seq::empty(),
                index: state.index + 1,
            }
        } else {
            Reading { segments: state.segments, current: state.current, index: state.index + 1 }
        };
        let (after, stopped) = after_pieces(first, pieces, 1, indexes);
        if stopped {
            (after, true)
        } else if after.segments.len() > 0 {
            (
                Reading {
                    segments: after.segments.drop_last(),
                    current: after.segments.last().push('\n'),
                    index: after.index - 1,
                },
                false,
            )
        } else {
            (after, false)
        }
    } else if state.index == indexes[state.segments.len() as int] {
        (
            Reading {
                segments: state.segments,
                current: state.current + line + seq!['\n'],
                index: state.index,
            },
            false,
        )
    } else {
        (state, false)
    }
}

/// The reading after the lines from `from` on. It ends with the lines, or as soon as
/// every wanted segment has been picked.
pub open spec fn after_lines(
    state: Reading,
    lines: Seq<Seq<char>>,
    from: int,
    indexes: Seq<usize>,
    delimiter: Seq<char>,
) -> Reading
    decreases lines.len() - from,
{
    if from < 0 || from >= lines.len() {
        state
    } else {
        let (next, stopped) = after_line(state, lines[from], indexes, delimiter);
        if stopped || next.segments.len() >= indexes.len() {
            next
        } else {
            after_lines(next, lines, from + 1, indexes, delimiter)
        }
    }
}

/// `number` as a machine word: itself where it fits, else the largest word.
fn narrow(number: u128) -> (word: usize)
    ensures
        word == if number > usize::MAX {
            usize::MAX as int
        } else {
            number as int
        },
{
    if number > usize::MAX as u128 {
        usize::MAX
    } else {
        number as usize
    }
}

/// `head` and `tail` put together.
fn glue(head: &String, tail: &str) -> (whole: String)
    ensures
        whole@ == head@ + tail@,
{
    let mut whole = head.clone();
    whole.append(tail);
    whole
}

/// Load segments of text separated by a delimiter: of the segments of `lines`, which are
/// numbered from `current_segment_index` on, those whose numbers `indexes` names, in order.
/// `current_segment_index` goes on to the number of the segment at which the reading
/// ended, as far as a machine word can hold it.
pub fn load_text_segments(
    lines: &[String],
    indexes: &[usize],
    current_segment_index: &mut usize,
    delimiter: &str,
) -> (segments: Vec<String>)
    requires
        indexes.len() > 0,
    ensures
        ({
            let start = Reading {
                segments: Seq::empty(),
                current: Seq::empty(),
                index: *old(current_segment_index) as int,
            };
            let end = after_lines(start, texts(lines@), 0, indexes@, delimiter@);
            &&& texts(segments@) == end.segments
            &&& *final(current_segment_index) == if end.index > usize::MAX {
                usize::MAX as int
            } else {
                end.index
            }
        }),
{
    let ghost all = texts(lines@);
    let ghost first = Reading {
        segments: Seq::empty(),
        current: Seq::empty(),
        index: *current_segment_index as int,
    };
    let mut segments: Vec<String> = Vec::new();
    let mut current_segment = String::new();
    let mut number: u128 = *current_segment_index as u128;
    let mut at: usize = 0;
    assert(all.take(0) =~= Seq::<Seq<char>>::empty());
    assert(texts(segments@) =~= Seq::<Seq<char>>::empty());
    while at < lines.len()
        invariant
            at <= lines.len(),
            all == texts(lines@),
            first == (Reading {
                segments: Seq::empty(),
                current: Seq::empty(),
                index: *old(current_segment_index) as int,
            }),
            indexes.len() > 0,
            segments.len() < indexes.len(),
            *current_segment_index == *old(current_segment_index),
            number <= *old(current_segment_index) + at * usize::MAX,
            after_lines(first, all, 0, indexes@, delimiter@) == after_lines(
                Reading {
                    segments: texts(segments@),
                    current: current_segment@,
                    index: number as int,
                },
                all,
                at as int,
                indexes@,
                delimiter@,
            ),
        decreases lines.len() - at,
    {
        let ghost state = Reading {
            segments: texts(segments@),
            current: current_segment@,
            index: number as int,
        };
        let ghost line = lines[at as int]@;
        assert(all[at as int] == line);
        proof {
            assert(at * usize::MAX + usize::MAX == (at + 1) * usize::MAX) by (nonlinear_arith);
            assert((at + 1) * usize::MAX <= usize::MAX * usize::MAX) by (nonlinear_arith)
                requires
                    at < usize::MAX,
            ;
            assert(usize::MAX + usize::MAX * usize::MAX <= u128::MAX) by (nonlinear_arith)
                requires
                    usize::MAX <= u64::MAX,
            ;
        }
        let line_segments = split_text(lines[at].as_str(), delimiter);
        let ghost pieces = texts(line_segments@);
        if line_segments.len() > 1 {
            // Handle beginning segment
            if number == indexes[segments.len()] as u128 {
                let ghost done = texts(segments@);
                segments.push(glue(&current_segment, line_segments[0].as_str()));
                current_segment = String::new();
                assert(texts(segments@) =~= done.push(state.current + pieces[0]));
            }
            number += 1;
            // Handle middle segments
            let mut j: usize = 1;
            while j < line_segments.len()
                invariant
                    1 <= j <= line_segments.len(),
                    pieces == texts(line_segments@),
                    number == state.index + j,
                    state.index + pieces.len() <= u128::MAX,
                    *current_segment_index == *old(current_segment_index),
                    segments.len() <= indexes.len(),
                    after_line(state, line, indexes@, delimiter@) == ({
                        let (after, stopped) = after_pieces(
                            Reading {
                                segments: texts(segments@),
                                current: current_segment@,
                                index: number as int,
                            },
                            pieces,
                            j as int,
                            indexes@,
                        );
                        if stopped {
                            (after, true)
                        } else if after.segments.len() > 0 {
                            (
                                Reading {
                                    segments: after.segments.drop_last(),
                                    current: after.segments.last().push('\n'),
                                    index: after.index - 1,
                                },
                                false,
                            )
                        } else {
                            (after, false)
                        }
                    }),
                    after_lines(first, all, 0, indexes@, delimiter@) == after_lines(
                        state,
                        all,
                        at as int,
                        indexes@,
                        delimiter@,
                    ),
                    at < lines.len(),
                    all == texts(lines@),
                    all[at as int] == line,
                    first == (Reading {
                        segments: Seq::empty(),
                        current: Seq::empty(),
                        index: *old(current_segment_index) as int,
                    }),
                decreases line_segments.len() - j,
            {
                if segments.len() >= indexes.len() {
                    proof {
                        let here = Reading {
                            segments: texts(segments@),
                            current: current_segment@,
                            index: number as int,
                        };
                        assert(after_pieces(here, pieces, j as int, indexes@) == (here, true));
                        assert(after_line(state, line, indexes@, delimiter@) == (here, true));
                        assert(after_lines(state, all, at as int, indexes@, delimiter@) == here);
                    }
                    *current_segment_index = narrow(number);
                    return segments;
                }
                if number == indexes[segments.len()] as u128 {
                    let ghost done = texts(segments@);
                    segments.push(glue(&current_segment, line_segments[j].as_str()));
                    assert(texts(segments@) =~= done.push(current_segment@ + pieces[j as int]));
                }
                number += 1;
                j += 1;
            }
            // We aren't supposed to finalize the last segment
            let ghost picked = texts(segments@);
            match segments.pop() {
                Some(last) => {
                    current_segment = last;
                    push_char(&mut current_segment, '\n');
                    number -= 1;
                    assert(texts(segments@) =~= picked.drop_last());
                },
                None => {},
            }
        } else if number == indexes[segments.len()] as u128 {
            current_segment.append(lines[at].as_str());
            push_char(&mut current_segment, '\n');
            assert(current_segment@ =~= state.current + line + seq!['\n']);
        }
        at += 1;
        if segments.len() >= indexes.len() {
            *current_segment_index = narrow(number);
            return segments;
        }
    }
    *current_segment_index = narrow(number);
    segments
}

} // verus!
