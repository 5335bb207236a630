//! The record language, line by line, as mathematics sees it.
//!
//! A sequence is opened by `#< name <#` and closed by `#> name >#`. Between
//! the two, a record is written in one of two ways: `#= name fields =#`, which
//! may run over several lines, or `#[ name [#`, any number of lines
//! `#- name fields -#`, and `name ]#`. Every other line is noise.

use crate::model::ModelView;
use crate::text::{after, after_last, before, find, find_pair, split};
use crate::unirecord::{decode_field, FieldModel, RecordModel, RecordParsingError};
use vstd::prelude::*;

verus! {

/// Which kind of record the parser is in the middle of.
#[derive(Clone, Copy, Debug, PartialEq, Eq, Structural)]
pub enum RecordCapturingState {
    /// Between records.
    OneShot,
    /// In a `#= ... =#` record that runs over several lines.
    Multiline,
    /// In a `#[ ... ]#` record.
    Ranged,
}

/// Why a line is refused, as mathematics sees it.
pub ghost enum LineErrorModel {
    MultipleRecordDelimiters(Seq<char>),
    UnmatchedNameSequenceStop(Seq<char>, Seq<char>),
    BadRecordArg(RecordParsingError),
    UnmatchedRangedRecordName(Seq<char>, Seq<char>),
    UncompleteRecordArg,
    UnmatchingRecordDelimiters(char, char),
    MissingEndDelimiter(char),
    MissingBeginDelimiter(char),
    UnparsableLine,
    MissingRecordArgs,
}

/// Why an input is refused, as mathematics sees it.
pub ghost enum FileErrorModel {
    LineError { line_nb: usize, line_error: LineErrorModel },
    NoSequenceStart,
    NoSequenceEnd { last_record_start_line: usize },
}

/// The state of the parser, as mathematics sees it.
pub ghost struct ParserModel {
    pub sequence_name: Seq<char>,
    pub model: ModelView,
    pub capture: RecordCapturingState,
    pub last_record_start_line: usize,
    pub current_line: usize,
    pub buffer: Seq<char>,
}

/// The lines of a text: cut after each line feed, without the line feed and
/// without a carriage return that stands before it.
pub open spec fn lines(text: Seq<char>) -> Seq<Seq<char>>
    decreases text.len(),
{
    if text.len() == 0 {
        Seq::empty()
    } else {
        let end = find(text, '\n', 0);
        if end < 0 || end >= text.len() {
            seq![text]
        } else {
            seq![line_before_feed(text.take(end))] + lines(text.skip(end + 1))
        }
    }
}

/// A line that a line feed ended, without the carriage return at its end.
pub open spec fn line_before_feed(raw: Seq<char>) -> Seq<char> {
    if raw.len() > 0 && raw.last() == '\r' {
        raw.drop_last()
    } else {
        raw
    }
}

/// A line without its time stamp: where the line starts with `[`, what
/// stands after the first `] `.
pub open spec fn strip_timestamp(line: Seq<char>) -> Seq<char> {
    if line.len() > 0 && line[0] == '[' {
        let p = find_pair(line, ']', ' ', 0);
        if p < line.len() {
            line.skip(p + 2)
        } else {
            line
        }
    } else {
        line
    }
}

/// The symbols that a delimiter marker may hold.
pub open spec fn is_symbol(c: char) -> bool {
    c == '<' || c == '>' || c == '=' || c == '[' || c == ']' || c == '-'
}

/// Whether a token is an opening marker `#s`.
pub open spec fn is_opening(token: Seq<char>) -> bool {
    token.len() == 2 && token[0] == '#' && is_symbol(token[1])
}

/// Whether a token is a closing marker `s#`.
pub open spec fn is_closing(token: Seq<char>) -> bool {
    token.len() == 2 && is_symbol(token[0]) && token[1] == '#'
}

/// The symbol of the opening marker that is the first token of the line.
pub open spec fn opening_symbol(line: Seq<char>) -> Option<char> {
    let token = before(line, ' ');
    if is_opening(token) {
        Some(token[1])
    } else {
        None
    }
}

/// The symbol of the closing marker that is the last token of the line.
pub open spec fn closing_symbol(line: Seq<char>) -> Option<char> {
    let token = after_last(line, ' ');
    if is_closing(token) {
        Some(token[0])
    } else {
        None
    }
}

/// What a line holds between its markers: without the opening marker and
/// the space after it, without the closing marker and the space before it.
pub open spec fn delimited_content(line: Seq<char>) -> Seq<char> {
    let start: int = if opening_symbol(line) is Some {
        3
    } else {
        0
    };
    let stop: int = if closing_symbol(line) is Some {
        line.len() - 3
    } else {
        line.len() as int
    };
    if start <= stop {
        line.subrange(start, stop)
    } else {
        Seq::empty()
    }
}

/// The first token that is a marker, if there is one.
pub open spec fn first_marker(tokens: Seq<Seq<char>>) -> Option<Seq<char>>
    decreases tokens.len(),
{
    if tokens.len() == 0 {
        None
    } else {
        match first_marker(tokens.drop_last()) {
            Some(token) => Some(token),
            None => if is_opening(tokens.last()) || is_closing(tokens.last()) {
                Some(tokens.last())
            } else {
                None
            },
        }
    }
}

/// What the markers of a line say: the symbol of a matched pair, or what
/// is wrong or missing. A line without a marker is `UnparsableLine`: noise.
pub open spec fn classify(line: Seq<char>) -> Result<char, LineErrorModel> {
    let opening = opening_symbol(line);
    let closing = closing_symbol(line);
    if opening is None && closing is None {
        Err(LineErrorModel::UnparsableLine)
    } else if opening is Some && closing is Some && opening->Some_0 != closing->Some_0 {
        Err(LineErrorModel::UnmatchingRecordDelimiters(opening->Some_0, closing->Some_0))
    } else {
        match first_marker(split(delimited_content(line), ' ')) {
            Some(token) => Err(LineErrorModel::MultipleRecordDelimiters(token)),
            None => if opening is Some && closing is Some {
                Ok(opening->Some_0)
            } else if opening is Some {
                Err(LineErrorModel::MissingEndDelimiter(opening->Some_0))
            } else {
                Err(LineErrorModel::MissingBeginDelimiter(closing->Some_0))
            },
        }
    }
}

/// The fields that pairs of tokens `name:` `type(payload)` write; the first
/// pair that fails, or lies outside the language, decides.
pub open spec fn decode_pairs(tokens: Seq<Seq<char>>) -> Option<
    Result<Seq<FieldModel>, LineErrorModel>,
>
    decreases tokens.len(),
{
    if tokens.len() < 2 {
        Some(Ok(Seq::empty()))
    } else {
        match decode_pairs(tokens.take(tokens.len() - 2)) {
            None => None,
            Some(Err(e)) => Some(Err(e)),
            Some(Ok(front)) => match decode_field(
                tokens[tokens.len() - 2],
                tokens[tokens.len() - 1],
            ) {
                None => None,
                Some(Err(e)) => Some(Err(LineErrorModel::BadRecordArg(e))),
                Some(Ok(field)) => Some(Ok(front.push(field))),
            },
        }
    }
}

/// The fields that a text of tokens, one space between two, writes. An odd
/// number of tokens is `UncompleteRecordArg`.
pub open spec fn decode_arguments(text: Seq<char>) -> Option<
    Result<Seq<FieldModel>, LineErrorModel>,
> {
    let tokens = split(text, ' ');
    if tokens.len() % 2 != 0 {
        Some(Err(LineErrorModel::UncompleteRecordArg))
    } else {
        decode_pairs(tokens)
    }
}

/// The record that a buffer `name fields` writes. `None` where a field lies
/// outside the language.
pub open spec fn decode_record(buffer: Seq<char>) -> Option<Result<RecordModel, LineErrorModel>> {
    match after(buffer, ' ') {
        None => Some(Ok(RecordModel { name: before(buffer, ' '), fields: Seq::empty() })),
        Some(rest) => match decode_arguments(rest) {
            None => None,
            Some(Err(e)) => Some(Err(e)),
            Some(Ok(fields)) => Some(Ok(RecordModel { name: before(buffer, ' '), fields })),
        },
    }
}

/// A buffer with a further piece: one space is put between the two where
/// the buffer ends with `)`, so that two fields do not run together.
pub open spec fn join(buffer: Seq<char>, piece: Seq<char>) -> Seq<char> {
    if buffer.len() > 0 && buffer.last() == ')' {
        buffer + seq![' '] + piece
    } else {
        buffer + piece
    }
}

impl ParserModel {
    /// The state after the opening marker of the sequence `name`.
    pub open spec fn start(name: Seq<char>) -> ParserModel {
        ParserModel {
            sequence_name: name,
            model: ModelView::empty(),
            capture: RecordCapturingState::OneShot,
            last_record_start_line: 0,
            current_line: 0,
            buffer: Seq::empty(),
        }
    }

    /// Decodes the record in the buffer and takes it into the model.
    pub open spec fn take_record(self) -> Option<Result<ParserModel, LineErrorModel>> {
        match decode_record(self.buffer) {
            None => None,
            Some(Err(e)) => Some(Err(e)),
            Some(Ok(record)) => Some(
                Ok(ParserModel { model: self.model.add_record(record), ..self }),
            ),
        }
    }

    /// A line between records. The flag says that the sequence ended here.
    pub open spec fn one_shot(self, line: Seq<char>) -> Option<
        Result<(ParserModel, bool), LineErrorModel>,
    > {
        let content = delimited_content(line);
        match classify(line) {
            Ok(symbol) => if symbol == '=' {
                match (ParserModel {
                    last_record_start_line: self.current_line,
                    buffer: content,
                    ..self
                }).take_record() {
                    None => None,
                    Some(Err(e)) => Some(Err(e)),
                    Some(Ok(next)) => Some(Ok((next, false))),
                }
            } else if symbol == '[' {
                Some(
                    Ok(
                        (
                            ParserModel {
                                last_record_start_line: self.current_line,
                                buffer: content,
                                capture: RecordCapturingState::Ranged,
                                ..self
                            },
                            false,
                        ),
                    ),
                )
            } else if symbol == '>' {
                if content == self.sequence_name {
                    Some(Ok((self, true)))
                } else {
                    Some(
                        Err(LineErrorModel::UnmatchedNameSequenceStop(content, self.sequence_name)),
                    )
                }
            } else {
                Some(Ok((self, false)))
            },
            Err(LineErrorModel::MissingEndDelimiter(symbol)) => if symbol == '=' {
                Some(
                    Ok(
                        (
                            ParserModel {
                                last_record_start_line: self.current_line,
                                buffer: content,
                                capture: RecordCapturingState::Multiline,
                                ..self
                            },
                            false,
                        ),
                    ),
                )
            } else if symbol == '[' {
                Some(Err(LineErrorModel::MissingEndDelimiter(symbol)))
            } else {
                Some(Ok((self, false)))
            },
            Err(LineErrorModel::UnparsableLine) => Some(Ok((self, false))),
            Err(e) => Some(Err(e)),
        }
    }

    /// The buffered record grows by `piece` and is complete.
    pub open spec fn close_multiline(self, piece: Seq<char>) -> Option<
        Result<ParserModel, LineErrorModel>,
    > {
        match (ParserModel { buffer: join(self.buffer, piece), ..self }).take_record() {
            None => None,
            Some(Err(e)) => Some(Err(e)),
            Some(Ok(next)) => Some(
                Ok(ParserModel { capture: RecordCapturingState::OneShot, ..next }),
            ),
        }
    }

    /// A line inside a `#= ... =#` record that runs over several lines.
    pub open spec fn multiline(self, line: Seq<char>) -> Option<
        Result<ParserModel, LineErrorModel>,
    > {
        let content = delimited_content(line);
        match classify(line) {
            Ok(symbol) => if symbol == '=' {
                self.close_multiline(content)
            } else {
                Some(Ok(self))
            },
            Err(LineErrorModel::MissingBeginDelimiter(symbol)) => if symbol == '=' {
                self.close_multiline(content)
            } else {
                Some(Ok(self))
            },
            Err(LineErrorModel::UnparsableLine) => Some(
                Ok(ParserModel { buffer: join(self.buffer, line), ..self }),
            ),
            Err(e) => Some(Err(e)),
        }
    }

    /// The name check of a line inside a `#[ ... ]#` record: the first token
    /// of the line's content must be the name that opened the record.
    pub open spec fn name_mismatch(self, content: Seq<char>) -> Option<LineErrorModel> {
        if before(content, ' ') == before(self.buffer, ' ') {
            None
        } else {
            Some(
                LineErrorModel::UnmatchedRangedRecordName(
                    before(self.buffer, ' '),
                    before(content, ' '),
                ),
            )
        }
    }

    /// The closing line of a `#[ ... ]#` record.
    pub open spec fn close_ranged(self, content: Seq<char>) -> Option<
        Result<ParserModel, LineErrorModel>,
    > {
        match self.name_mismatch(content) {
            Some(e) => Some(Err(e)),
            None => match self.take_record() {
                None => None,
                Some(Err(e)) => Some(Err(e)),
                Some(Ok(next)) => Some(
                    Ok(ParserModel { capture: RecordCapturingState::OneShot, ..next }),
                ),
            },
        }
    }

    /// A line inside a `#[ ... ]#` record.
    pub open spec fn ranged(self, line: Seq<char>) -> Option<Result<ParserModel, LineErrorModel>> {
        let content = delimited_content(line);
        match classify(line) {
            Ok(symbol) => if symbol == '-' {
                match self.name_mismatch(content) {
                    Some(e) => Some(Err(e)),
                    None => match after(content, ' ') {
                        Some(fields) => Some(
                            Ok(ParserModel { buffer: self.buffer + seq![' '] + fields, ..self }),
                        ),
                        None => Some(Ok(self)),
                    },
                }
            } else if symbol == ']' {
                self.close_ranged(content)
            } else {
                Some(Ok(self))
            },
            Err(LineErrorModel::MissingBeginDelimiter(symbol)) => if symbol == ']' {
                self.close_ranged(content)
            } else {
                Some(Ok(self))
            },
            Err(LineErrorModel::UnmatchingRecordDelimiters(a, b)) => Some(
                Err(LineErrorModel::UnmatchingRecordDelimiters(a, b)),
            ),
            Err(LineErrorModel::MultipleRecordDelimiters(token)) => Some(
                Err(LineErrorModel::MultipleRecordDelimiters(token)),
            ),
            Err(_) => Some(Ok(self)),
        }
    }

    /// One line of the input with the number `number`: its time stamp is
    /// taken off, and an empty line changes nothing.
    pub open spec fn feed(self, number: usize, raw: Seq<char>) -> Option<
        Result<(ParserModel, bool), LineErrorModel>,
    > {
        let line = strip_timestamp(raw);
        let state = ParserModel { current_line: number, ..self };
        if line.len() == 0 {
            Some(Ok((state, false)))
        } else {
            match state.capture {
                RecordCapturingState::OneShot => state.one_shot(line),
                RecordCapturingState::Multiline => match state.multiline(line) {
                    None => None,
                    Some(Err(e)) => Some(Err(e)),
                    Some(Ok(next)) => Some(Ok((next, false))),
                },
                RecordCapturingState::Ranged => match state.ranged(line) {
                    None => None,
                    Some(Err(e)) => Some(Err(e)),
                    Some(Ok(next)) => Some(Ok((next, false))),
                },
            }
        }
    }

    /// The lines from index `at` on. The input ends well only at the closing
    /// marker of the sequence; where the lines run out before, the error
    /// names the line at which the last record began.
    pub open spec fn run(self, lines: Seq<Seq<char>>, at: int) -> Option<
        Result<ModelView, FileErrorModel>,
    >
        decreases lines.len() - at,
    {
        if at < 0 || at >= lines.len() {
            Some(
                Err(
                    FileErrorModel::NoSequenceEnd {
                        last_record_start_line: self.last_record_start_line,
                    },
                ),
            )
        } else {
            match self.feed((at + 1) as usize, lines[at]) {
                None => None,
                Some(Err(e)) => Some(
                    Err(FileErrorModel::LineError { line_nb: (at + 1) as usize, line_error: e }),
                ),
                Some(Ok((next, ended))) => if ended {
                    Some(
                        Ok(ModelView { sequence_name: Some(next.sequence_name), ..next.model }),
                    )
                } else {
                    next.run(lines, at + 1)
                },
            }
        }
    }
}

/// The index of the line that opens the sequence, from index `at` on, and
/// the sequence's name. Before that line only a broken marker is an error.
pub open spec fn seek_begin(lines: Seq<Seq<char>>, at: int) -> Result<
    (int, Seq<char>),
    FileErrorModel,
>
    decreases lines.len() - at,
{
    if at < 0 || at >= lines.len() {
        Err(FileErrorModel::NoSequenceStart)
    } else {
        let line = strip_timestamp(lines[at]);
        if line.len() == 0 {
            seek_begin(lines, at + 1)
        } else {
            match classify(line) {
                Ok(symbol) => if symbol == '<' {
                    Ok((at, delimited_content(line)))
                } else {
                    seek_begin(lines, at + 1)
                },
                Err(LineErrorModel::UnparsableLine) => seek_begin(lines, at + 1),
                Err(e) => Err(
                    FileErrorModel::LineError { line_nb: (at + 1) as usize, line_error: e },
                ),
            }
        }
    }
}

/// The model that an input writes, or the first error with its line.
/// `None` where a field that the parser reaches lies outside the language.
pub open spec fn parse(input: Seq<char>) -> Option<Result<ModelView, FileErrorModel>> {
    match seek_begin(lines(input), 0) {
        Err(e) => Some(Err(e)),
        Ok((at, name)) => ParserModel::start(name).run(lines(input), at + 1),
    }
}

} // verus!
