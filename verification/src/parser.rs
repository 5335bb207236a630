//! The line parser: a state machine over the lines of a log.

use crate::grammar::{
    classify, closing_symbol, decode_arguments, decode_pairs, decode_record, delimited_content,
    first_marker, is_closing, is_opening, is_symbol, join, line_before_feed, lines, opening_symbol,
    parse, seek_begin, strip_timestamp, FileErrorModel, LineErrorModel, ParserModel,
    RecordCapturingState,
};
use crate::model::{Model, ModelView};
use crate::text::{
    after, after_last, after_last_in, append_text, before, chars_of, find_in, find_pair_in,
    lemma_find_shift, same_text, slice_of, split_text, string_of, views,
};
use crate::unirecord::{
    decode_field, field_models, FieldModel, RecordModel, RecordParsingError, UniRecord,
    UniRecordArgVariant,
};
use vstd::prelude::*;

verus! {

/// Why a line is refused.
#[derive(Debug, PartialEq)]
pub enum LineParsingError {
    /// A marker stands between the markers of the line; it is carried.
    MultipleRecordDelimiters(String),
    /// The sequence is closed under another name than it was opened: the
    /// name read, then the name expected.
    UnmatchedNameSequenceStop(Box<(String, String)>),
    /// A field literal is not a value of its type.
    BadRecordArg(RecordParsingError),
    /// A line of a ranged record names another record: the name that opened
    /// the record, then the name read.
    UnmatchedRangedRecordName(Box<(String, String)>),
    /// A field name stands without a literal.
    UncompleteRecordArg,
    /// The opening and the closing marker of a line differ.
    UnmatchingRecordDelimiters(char, char),
    /// The line opens with a marker and does not close with one.
    MissingEndDelimiter(char),
    /// The line closes with a marker and does not open with one.
    MissingBeginDelimiter(char),
    /// The line holds no marker.
    UnparsableLine,
    /// A record stands without fields where fields are asked for.
    MissingRecordArgs,
}

impl View for LineParsingError {
    type V = LineErrorModel;

    open spec fn view(&self) -> LineErrorModel {
        match self {
            LineParsingError::MultipleRecordDelimiters(token) => {
                LineErrorModel::MultipleRecordDelimiters(token@)
            },
            LineParsingError::UnmatchedNameSequenceStop(names) => {
                LineErrorModel::UnmatchedNameSequenceStop(names.0@, names.1@)
            },
            LineParsingError::BadRecordArg(e) => LineErrorModel::BadRecordArg(*e),
            LineParsingError::UnmatchedRangedRecordName(names) => {
                LineErrorModel::UnmatchedRangedRecordName(names.0@, names.1@)
            },
            LineParsingError::UncompleteRecordArg => LineErrorModel::UncompleteRecordArg,
            LineParsingError::UnmatchingRecordDelimiters(a, b) => {
                LineErrorModel::UnmatchingRecordDelimiters(*a, *b)
            },
            LineParsingError::MissingEndDelimiter(c) => LineErrorModel::MissingEndDelimiter(*c),
            LineParsingError::MissingBeginDelimiter(c) => LineErrorModel::MissingBeginDelimiter(
                *c,
            ),
            LineParsingError::UnparsableLine => LineErrorModel::UnparsableLine,
            LineParsingError::MissingRecordArgs => LineErrorModel::MissingRecordArgs,
        }
    }
}

/// Why an input is refused. Lines are numbered from 1.
#[derive(Debug, PartialEq)]
pub enum FileParsingError {
    /// A line is refused.
    LineError { line_nb: usize, line_error: LineParsingError },
    /// No line opens a sequence.
    NoSequenceStart,
    /// The input ends before the sequence is closed; the line at which the
    /// last record began is carried, 0 where there was none.
    NoSequenceEnd { last_record_start_line: usize },
}

impl View for FileParsingError {
    type V = FileErrorModel;

    open spec fn view(&self) -> FileErrorModel {
        match self {
            FileParsingError::LineError { line_nb, line_error } => FileErrorModel::LineError {
                line_nb: *line_nb,
                line_error: line_error@,
            },
            FileParsingError::NoSequenceStart => FileErrorModel::NoSequenceStart,
            FileParsingError::NoSequenceEnd { last_record_start_line } => {
                FileErrorModel::NoSequenceEnd { last_record_start_line: *last_record_start_line }
            },
        }
    }
}

/// What the markers of a line say, as mathematics sees it.
pub open spec fn class_view(class: Result<char, LineParsingError>) -> Result<
    char,
    LineErrorModel,
> {
    match class {
        Ok(symbol) => Ok(symbol),
        Err(e) => Err(e@),
    }
}

/// Cuts a text into its lines.
pub fn split_lines(text: &Vec<char>) -> (out: Vec<Vec<char>>)
    ensures
        views(out@) == lines(text@),
{
    let mut out: Vec<Vec<char>> = Vec::new();
    let mut start: usize = 0;
    assert(text@.skip(0) =~= text@);
    assert(views(out@) + lines(text@) =~= lines(text@));
    loop
        invariant_except_break
            start <= text.len(),
            lines(text@) == views(out@) + lines(text@.skip(start as int)),
        ensures
            views(out@) == lines(text@),
        decreases text.len() - start,
    {
        let ghost rest = text@.skip(start as int);
        if start >= text.len() {
            assert(views(out@) + lines(rest) =~= views(out@));
            break ;
        }
        let end: usize = find_in(text, '\n', start);
        proof {
            lemma_find_shift(text@, '\n', start as int);
        }
        let ghost before_push = out@;
        if end >= text.len() {
            let piece = slice_of(text, start, text.len());
            assert(piece@ =~= rest);
            out.push(piece);
            assert(views(out@) =~= views(before_push) + seq![rest]);
            break ;
        }
        let stop: usize = if end > start && text[end - 1] == '\r' {
            end - 1
        } else {
            end
        };
        let piece = slice_of(text, start, stop);
        proof {
            let raw = rest.take(end - start);
            assert(raw =~= text@.subrange(start as int, end as int));
            if raw.len() > 0 {
                assert(raw.last() == text@[end - 1]);
            }
            assert(piece@ =~= line_before_feed(raw));
            assert(rest.skip(end - start + 1) =~= text@.skip(end + 1));
        }
        out.push(piece);
        proof {
            assert(views(out@) =~= views(before_push).push(piece@));
            assert(views(before_push) + (seq![piece@] + lines(text@.skip(end + 1))) =~= views(out@)
                + lines(text@.skip(end + 1)));
        }
        start = end + 1;
    }
    out
}

/// Takes the time stamp off a line.
pub fn remove_timestamp(line: &Vec<char>) -> (r: Vec<char>)
    ensures
        r@ == strip_timestamp(line@),
{
    if line.len() > 0 && line[0] == '[' {
        let p: usize = find_pair_in(line, ']', ' ', 0);
        if p < line.len() {
            let r = slice_of(line, p + 2, line.len());
            assert(r@ =~= line@.skip(p + 2));
            return r;
        }
    }
    let r = slice_of(line, 0, line.len());
    assert(r@ =~= line@);
    r
}

fn symbol(c: char) -> (r: bool)
    ensures
        r == is_symbol(c),
{
    c == '<' || c == '>' || c == '=' || c == '[' || c == ']' || c == '-'
}

fn opening(token: &Vec<char>) -> (r: bool)
    ensures
        r == is_opening(token@),
{
    token.len() == 2 && token[0] == '#' && symbol(token[1])
}

fn closing(token: &Vec<char>) -> (r: bool)
    ensures
        r == is_closing(token@),
{
    token.len() == 2 && symbol(token[0]) && token[1] == '#'
}

fn find_marker(tokens: &Vec<Vec<char>>) -> (r: Option<usize>)
    ensures
        match r {
            Some(i) => i < tokens.len() && first_marker(views(tokens@)) == Some(tokens@[i as int]@),
            None => first_marker(views(tokens@)) is None,
        },
{
    let mut i: usize = 0;
    assert(views(tokens@).take(0) =~= Seq::<Seq<char>>::empty());
    while i < tokens.len()
        invariant
            i <= tokens.len(),
            first_marker(views(tokens@).take(i as int)) is None,
        decreases tokens.len() - i,
    {
        proof {
            let front = views(tokens@).take(i as int);
            let next = views(tokens@).take(i + 1);
            assert(next.drop_last() =~= front);
            assert(next.last() == tokens@[i as int]@);
        }
        if opening(&tokens[i]) || closing(&tokens[i]) {
            proof {
                lemma_first_marker_stays(views(tokens@), i + 1);
            }
            return Some(i);
        }
        i += 1;
    }
    assert(views(tokens@).take(tokens.len() as int) =~= views(tokens@));
    None
}

/// A marker among the first tokens stays the first marker of the list.
pub proof fn lemma_first_marker_stays(tokens: Seq<Seq<char>>, n: int)
    requires
        0 <= n <= tokens.len(),
        first_marker(tokens.take(n)) is Some,
    ensures
        first_marker(tokens) == first_marker(tokens.take(n)),
    decreases tokens.len() - n,
{
    if n < tokens.len() {
        assert(tokens.take(n + 1).drop_last() =~= tokens.take(n));
        lemma_first_marker_stays(tokens, n + 1);
    } else {
        assert(tokens.take(n) =~= tokens);
    }
}

/// Reads the markers of a line: gives what stands between them, and what
/// they say.
pub fn get_delimited_content(line: &Vec<char>) -> (r: (Vec<char>, Result<char, LineParsingError>))
    ensures
        r.0@ == delimited_content(line@),
        class_view(r.1) == classify(line@),
{
    let first_end: usize = find_in(line, ' ', 0);
    let first = slice_of(line, 0, first_end);
    assert(first@ =~= before(line@, ' '));
    let last_start: usize = after_last_in(line, ' ');
    let last = slice_of(line, last_start, line.len());
    assert(last@ =~= after_last(line@, ' '));
    let begin: Option<char> = if opening(&first) {
        Some(first[1])
    } else {
        None
    };
    let end: Option<char> = if closing(&last) {
        Some(last[0])
    } else {
        None
    };
    assert(begin == opening_symbol(line@));
    assert(end == closing_symbol(line@));
    let start: usize = if begin.is_some() {
        3
    } else {
        0
    };
    let content = if end.is_some() {
        if line.len() >= 3 && start <= line.len() - 3 {
            slice_of(line, start, line.len() - 3)
        } else {
            Vec::new()
        }
    } else {
        if start <= line.len() {
            slice_of(line, start, line.len())
        } else {
            Vec::new()
        }
    };
    assert(content@ =~= delimited_content(line@));
    match (begin, end) {
        (None, None) => (content, Err(LineParsingError::UnparsableLine)),
        (Some(a), Some(b)) => {
            if a != b {
                (content, Err(LineParsingError::UnmatchingRecordDelimiters(a, b)))
            } else {
                let tokens = split_text(&content, ' ');
                match find_marker(&tokens) {
                    Some(i) => {
                        let token = string_of(&tokens[i]);
                        (content, Err(LineParsingError::MultipleRecordDelimiters(token)))
                    },
                    None => (content, Ok(a)),
                }
            }
        },
        (Some(a), None) => {
            let tokens = split_text(&content, ' ');
            match find_marker(&tokens) {
                Some(i) => {
                    let token = string_of(&tokens[i]);
                    (content, Err(LineParsingError::MultipleRecordDelimiters(token)))
                },
                None => (content, Err(LineParsingError::MissingEndDelimiter(a))),
            }
        },
        (None, Some(b)) => {
            let tokens = split_text(&content, ' ');
            match find_marker(&tokens) {
                Some(i) => {
                    let token = string_of(&tokens[i]);
                    (content, Err(LineParsingError::MultipleRecordDelimiters(token)))
                },
                None => (content, Err(LineParsingError::MissingBeginDelimiter(b))),
            }
        },
    }
}

/// What stopped the first pairs stops the whole list.
pub proof fn lemma_decode_pairs_stops(tokens: Seq<Seq<char>>, n: int)
    requires
        0 <= n <= tokens.len(),
        (tokens.len() - n) % 2 == 0,
        !(decode_pairs(tokens.take(n)) matches Some(Ok(_))),
    ensures
        decode_pairs(tokens) == decode_pairs(tokens.take(n)),
    decreases tokens.len() - n,
{
    if n < tokens.len() {
        let next = tokens.take(n + 2);
        assert(next.take(next.len() - 2) =~= tokens.take(n));
        lemma_decode_pairs_stops(tokens, n + 2);
    } else {
        assert(tokens.take(n) =~= tokens);
    }
}

/// The next pair of tokens goes on from what the pairs before it gave.
pub proof fn lemma_decode_pairs_step(tokens: Seq<Seq<char>>, n: int)
    requires
        0 <= n,
        n + 2 <= tokens.len(),
    ensures
        decode_pairs(tokens.take(n + 2)) == (match decode_pairs(tokens.take(n)) {
            None => None,
            Some(Err(e)) => Some(Err(e)),
            Some(Ok(front)) => match decode_field(tokens[n], tokens[n + 1]) {
                None => None,
                Some(Err(e)) => Some(Err(LineErrorModel::BadRecordArg(e))),
                Some(Ok(field)) => Some(Ok(front.push(field))),
            },
        }),
{
    let next = tokens.take(n + 2);
    assert(next.take(next.len() - 2) =~= tokens.take(n));
    assert(next[next.len() - 2] == tokens[n]);
    assert(next[next.len() - 1] == tokens[n + 1]);
}

/// Decodes the fields that pairs of tokens write.
#[verifier::rlimit(40)]
fn parse_pairs(tokens: &Vec<Vec<char>>) -> (r: Option<
    Result<Vec<UniRecordArgVariant>, LineParsingError>,
>)
    requires
        tokens.len() % 2 == 0,
    ensures
        match r {
            None => decode_pairs(views(tokens@)) is None,
            Some(Ok(args)) => decode_pairs(views(tokens@)) == Some(
                Ok::<Seq<FieldModel>, LineErrorModel>(field_models(args@)),
            ),
            Some(Err(e)) => decode_pairs(views(tokens@)) == Some(
                Err::<Seq<FieldModel>, LineErrorModel>(e@),
            ),
        },
{
    let mut args: Vec<UniRecordArgVariant> = Vec::new();
    let mut i: usize = 0;
    let ghost all = views(tokens@);
    assert(all.take(0) =~= Seq::<Seq<char>>::empty());
    assert(field_models(args@) =~= Seq::<FieldModel>::empty());
    while i < tokens.len()
        invariant
            i <= tokens.len(),
            i % 2 == 0,
            tokens.len() % 2 == 0,
            all == views(tokens@),
            decode_pairs(all.take(i as int)) == Some(
                Ok::<Seq<FieldModel>, LineErrorModel>(field_models(args@)),
            ),
        decreases tokens.len() - i,
    {
        proof {
            lemma_decode_pairs_step(all, i as int);
            assert(all[i as int] == tokens@[i as int]@);
            assert(all[i + 1] == tokens@[i + 1]@);
        }
        let decoded = UniRecordArgVariant::decode_chars(&tokens[i], &tokens[i + 1]);
        match decoded {
            None => {
                proof {
                    lemma_decode_pairs_stops(all, i + 2);
                }
                return None;
            },
            Some(Err(e)) => {
                proof {
                    lemma_decode_pairs_stops(all, i + 2);
                }
                return Some(Err(LineParsingError::BadRecordArg(e)));
            },
            Some(Ok(field)) => {
                let ghost before_push = field_models(args@);
                args.push(field);
                assert(field_models(args@) =~= before_push.push(field@));
            },
        }
        i += 2;
    }
    assert(all.take(tokens.len() as int) =~= all);
    Some(Ok(args))
}

/// Decodes the fields that a text of tokens writes.
pub fn parse_record_args(line: &Vec<char>) -> (r: Option<
    Result<Vec<UniRecordArgVariant>, LineParsingError>,
>)
    ensures
        match r {
            None => decode_arguments(line@) is None,
            Some(Ok(args)) => decode_arguments(line@) == Some(
                Ok::<Seq<FieldModel>, LineErrorModel>(field_models(args@)),
            ),
            Some(Err(e)) => decode_arguments(line@) == Some(
                Err::<Seq<FieldModel>, LineErrorModel>(e@),
            ),
        },
{
    let tokens = split_text(line, ' ');
    if tokens.len() % 2 != 0 {
        return Some(Err(LineParsingError::UncompleteRecordArg));
    }
    parse_pairs(&tokens)
}

/// Decodes the record that a buffer `name fields` writes.
pub fn parse_record(buffer: &Vec<char>) -> (r: Option<Result<UniRecord, LineParsingError>>)
    ensures
        match r {
            None => decode_record(buffer@) is None,
            Some(Ok(record)) => decode_record(buffer@) == Some(
                Ok::<RecordModel, LineErrorModel>(record@),
            ),
            Some(Err(e)) => decode_record(buffer@) == Some(
                Err::<RecordModel, LineErrorModel>(e@),
            ),
        },
{
    let space: usize = find_in(buffer, ' ', 0);
    let name_chars = slice_of(buffer, 0, space);
    assert(name_chars@ =~= before(buffer@, ' '));
    let name = string_of(&name_chars);
    if space < buffer.len() {
        let rest = slice_of(buffer, space + 1, buffer.len());
        assert(rest@ =~= buffer@.skip(space + 1));
        match parse_record_args(&rest) {
            None => None,
            Some(Err(e)) => Some(Err(e)),
            Some(Ok(args)) => Some(Ok(UniRecord::new(name, args))),
        }
    } else {
        let args: Vec<UniRecordArgVariant> = Vec::new();
        assert(field_models(args@) =~= Seq::<FieldModel>::empty());
        Some(Ok(UniRecord::new(name, args)))
    }
}

/// How a run goes on after a line.
enum Advance {
    /// The next line is due.
    Continue,
    /// The sequence was closed.
    Ended,
    /// The line was refused.
    Failed(FileParsingError),
    /// A field outside the language was reached.
    Defect,
}

/// The parser of one input.
pub struct Parser {
    sequence_name: String,
    input: String,
    model: Model,
    capturing_state: RecordCapturingState,
    last_record_start_line: usize,
    current_line: usize,
    line_buffer: Vec<char>,
}

impl View for Parser {
    type V = ParserModel;

    closed spec fn view(&self) -> ParserModel {
        ParserModel {
            sequence_name: self.sequence_name@,
            model: self.model@,
            capture: self.capturing_state,
            last_record_start_line: self.last_record_start_line,
            current_line: self.current_line,
            buffer: self.line_buffer@,
        }
    }
}

impl Parser {
    /// The model of the parser is well formed.
    pub closed spec fn wf(&self) -> bool {
        self.model.wf()
    }

    /// The text that the parser was made for.
    pub closed spec fn input(&self) -> Seq<char> {
        self.input@
    }

    /// A parser for the text of a log.
    pub fn new(input: String) -> (parser: Parser)
        ensures
            parser.wf(),
            parser@ == ParserModel::start(Seq::empty()),
            parser.input() == input@,
    {
        let parser = Parser {
            sequence_name: String::new(),
            input,
            model: Model::default(),
            capturing_state: RecordCapturingState::OneShot,
            last_record_start_line: 0,
            current_line: 0,
            line_buffer: Vec::new(),
        };
        parser
    }

    /// The model that the parser has built so far.
    pub fn model(&self) -> (r: &Model)
        ensures
            r@ == self@.model,
            r.wf() == self.wf(),
    {
        &self.model
    }

    /// Which kind of record the parser is in the middle of.
    pub fn capturing_state(&self) -> (r: RecordCapturingState)
        ensures
            r == self@.capture,
    {
        self.capturing_state
    }

    /// The text of the record that the parser is in the middle of.
    pub fn line_buffer(&self) -> (r: &Vec<char>)
        ensures
            r@ == self@.buffer,
    {
        &self.line_buffer
    }

    /// Decodes the record that `buffer` writes and takes it into the model;
    /// `buffer` becomes the parser's buffer. Where the record is refused,
    /// the parser stays as it was.
    fn take_record(&mut self, buffer: Vec<char>) -> (r: Option<Result<(), LineParsingError>>)
        requires
            old(self).wf(),
        ensures
            final(self).wf(),
            match r {
                None => (ParserModel { buffer: buffer@, ..old(self)@ }).take_record() is None
                    && final(self)@ == old(self)@,
                Some(Err(e)) => (ParserModel { buffer: buffer@, ..old(self)@ }).take_record()
                    == Some(Err::<ParserModel, LineErrorModel>(e@)) && final(self)@ == old(self)@,
                Some(Ok(_)) => (ParserModel { buffer: buffer@, ..old(self)@ }).take_record()
                    == Some(Ok::<ParserModel, LineErrorModel>(final(self)@)),
            },
    {
        match parse_record(&buffer) {
            None => None,
            Some(Err(e)) => Some(Err(e)),
            Some(Ok(record)) => {
                self.model.add_record(record);
                self.line_buffer = buffer;
                Some(Ok(()))
            },
        }
    }

    /// A line between records. The flag says that the sequence ended here.
    /// Where the line is refused, the parser stays as it was.
    pub fn one_shot_state(&mut self, line: &Vec<char>) -> (r: Option<
        Result<bool, LineParsingError>,
    >)
        requires
            old(self).wf(),
        ensures
            final(self).wf(),
            match r {
                None => old(self)@.one_shot(line@) is None && final(self)@ == old(self)@,
                Some(Err(e)) => old(self)@.one_shot(line@) == Some(
                    Err::<(ParserModel, bool), LineErrorModel>(e@),
                ) && final(self)@ == old(self)@,
                Some(Ok(ended)) => old(self)@.one_shot(line@) == Some(
                    Ok::<(ParserModel, bool), LineErrorModel>((final(self)@, ended)),
                ),
            },
    {
        let (content, class) = get_delimited_content(line);
        match class {
            Ok(symbol) => {
                if symbol == '=' {
                    match self.take_record(content) {
                        None => None,
                        Some(Err(e)) => Some(Err(e)),
                        Some(Ok(_)) => {
                            self.last_record_start_line = self.current_line;
                            Some(Ok(false))
                        },
                    }
                } else if symbol == '[' {
                    self.last_record_start_line = self.current_line;
                    self.line_buffer = content;
                    self.capturing_state = RecordCapturingState::Ranged;
                    Some(Ok(false))
                } else if symbol == '>' {
                    let expected = chars_of(self.sequence_name.as_str());
                    if same_text(&content, &expected) {
                        Some(Ok(true))
                    } else {
                        Some(
                            Err(
                                LineParsingError::UnmatchedNameSequenceStop(
                                    Box::new((string_of(&content), self.sequence_name.clone())),
                                ),
                            ),
                        )
                    }
                } else {
                    Some(Ok(false))
                }
            },
            Err(LineParsingError::MissingEndDelimiter(symbol)) => {
                if symbol == '=' {
                    self.last_record_start_line = self.current_line;
                    self.line_buffer = content;
                    self.capturing_state = RecordCapturingState::Multiline;
                    Some(Ok(false))
                } else if symbol == '[' {
                    Some(Err(LineParsingError::MissingEndDelimiter(symbol)))
                } else {
                    Some(Ok(false))
                }
            },
            Err(LineParsingError::UnparsableLine) => Some(Ok(false)),
            Err(e) => Some(Err(e)),
        }
    }

    /// The buffer with a further piece: one space stands between the two
    /// where the buffer ends with `)`.
    fn joined(&self, piece: &Vec<char>) -> (r: Vec<char>)
        ensures
            r@ == join(self@.buffer, piece@),
    {
        let n: usize = self.line_buffer.len();
        let mut r = slice_of(&self.line_buffer, 0, n);
        assert(r@ =~= self.line_buffer@);
        if n > 0 && self.line_buffer[n - 1] == ')' {
            r.push(' ');
            assert(r@ =~= self.line_buffer@ + seq![' ']);
        }
        append_text(&mut r, piece);
        r
    }

    /// The buffered record grows by `piece` and is complete.
    fn close_multiline(&mut self, piece: &Vec<char>) -> (r: Option<Result<(), LineParsingError>>)
        requires
            old(self).wf(),
        ensures
            final(self).wf(),
            match r {
                None => old(self)@.close_multiline(piece@) is None && final(self)@ == old(self)@,
                Some(Err(e)) => old(self)@.close_multiline(piece@) == Some(
                    Err::<ParserModel, LineErrorModel>(e@),
                ) && final(self)@ == old(self)@,
                Some(Ok(_)) => old(self)@.close_multiline(piece@) == Some(
                    Ok::<ParserModel, LineErrorModel>(final(self)@),
                ),
            },
    {
        let buffer = self.joined(piece);
        match self.take_record(buffer) {
            None => None,
            Some(Err(e)) => Some(Err(e)),
            Some(Ok(_)) => {
                self.capturing_state = RecordCapturingState::OneShot;
                Some(Ok(()))
            },
        }
    }

    /// A line inside a `#= ... =#` record that runs over several lines.
    /// Where the line is refused, the parser stays as it was.
    pub fn multiline_capture_state(&mut self, line: &Vec<char>) -> (r: Option<
        Result<(), LineParsingError>,
    >)
        requires
            old(self).wf(),
        ensures
            final(self).wf(),
            match r {
                None => old(self)@.multiline(line@) is None && final(self)@ == old(self)@,
                Some(Err(e)) => old(self)@.multiline(line@) == Some(
                    Err::<ParserModel, LineErrorModel>(e@),
                ) && final(self)@ == old(self)@,
                Some(Ok(_)) => old(self)@.multiline(line@) == Some(
                    Ok::<ParserModel, LineErrorModel>(final(self)@),
                ),
            },
    {
        let (content, class) = get_delimited_content(line);
        match class {
            Ok(symbol) => {
                if symbol == '=' {
                    self.close_multiline(&content)
                } else {
                    Some(Ok(()))
                }
            },
            Err(LineParsingError::MissingBeginDelimiter(symbol)) => {
                if symbol == '=' {
                    self.close_multiline(&content)
                } else {
                    Some(Ok(()))
                }
            },
            Err(LineParsingError::UnparsableLine) => {
                let buffer = self.joined(line);
                self.line_buffer = buffer;
                Some(Ok(()))
            },
            Err(e) => Some(Err(e)),
        }
    }

    /// Checks that a line of a ranged record names the record that is open.
    fn compare_record_name_to_ref(&self, content: &Vec<char>) -> (r: Result<(), LineParsingError>)
        ensures
            match r {
                Ok(_) => self@.name_mismatch(content@) is None,
                Err(e) => self@.name_mismatch(content@) == Some(e@),
            },
    {
        let end: usize = find_in(content, ' ', 0);
        let name = slice_of(content, 0, end);
        assert(name@ =~= before(content@, ' '));
        let expected_end: usize = find_in(&self.line_buffer, ' ', 0);
        let expected = slice_of(&self.line_buffer, 0, expected_end);
        assert(expected@ =~= before(self.line_buffer@, ' '));
        if same_text(&name, &expected) {
            Ok(())
        } else {
            Err(
                LineParsingError::UnmatchedRangedRecordName(
                    Box::new((string_of(&expected), string_of(&name))),
                ),
            )
        }
    }

    /// The closing line of a `#[ ... ]#` record.
    fn close_ranged(&mut self, content: &Vec<char>) -> (r: Option<Result<(), LineParsingError>>)
        requires
            old(self).wf(),
        ensures
            final(self).wf(),
            match r {
                None => old(self)@.close_ranged(content@) is None && final(self)@ == old(self)@,
                Some(Err(e)) => old(self)@.close_ranged(content@) == Some(
                    Err::<ParserModel, LineErrorModel>(e@),
                ) && final(self)@ == old(self)@,
                Some(Ok(_)) => old(self)@.close_ranged(content@) == Some(
                    Ok::<ParserModel, LineErrorModel>(final(self)@),
                ),
            },
    {
        match self.compare_record_name_to_ref(content) {
            Err(e) => Some(Err(e)),
            Ok(_) => {
                let n: usize = self.line_buffer.len();
                let buffer = slice_of(&self.line_buffer, 0, n);
                assert(buffer@ =~= self.line_buffer@);
                match self.take_record(buffer) {
                    None => None,
                    Some(Err(e)) => Some(Err(e)),
                    Some(Ok(_)) => {
                        self.capturing_state = RecordCapturingState::OneShot;
                        Some(Ok(()))
                    },
                }
            },
        }
    }

    /// A line inside a `#[ ... ]#` record. Where the line is refused, the
    /// parser stays as it was.
    pub fn ranged_capture_state(&mut self, line: &Vec<char>) -> (r: Option<
        Result<(), LineParsingError>,
    >)
        requires
            old(self).wf(),
        ensures
            final(self).wf(),
            match r {
                None => old(self)@.ranged(line@) is None && final(self)@ == old(self)@,
                Some(Err(e)) => old(self)@.ranged(line@) == Some(
                    Err::<ParserModel, LineErrorModel>(e@),
                ) && final(self)@ == old(self)@,
                Some(Ok(_)) => old(self)@.ranged(line@) == Some(
                    Ok::<ParserModel, LineErrorModel>(final(self)@),
                ),
            },
    {
        let (content, class) = get_delimited_content(line);
        match class {
            Ok(symbol) => {
                if symbol == '-' {
                    match self.compare_record_name_to_ref(&content) {
                        Err(e) => Some(Err(e)),
                        Ok(_) => {
                            let space: usize = find_in(&content, ' ', 0);
                            if space < content.len() {
                                let fields = slice_of(&content, space + 1, content.len());
                                assert(fields@ =~= content@.skip(space + 1));
                                self.line_buffer.push(' ');
                                append_text(&mut self.line_buffer, &fields);
                                assert(self.line_buffer@ =~= old(self).line_buffer@ + seq![' ']
                                    + fields@);
                            }
                            Some(Ok(()))
                        },
                    }
                } else if symbol == ']' {
                    self.close_ranged(&content)
                } else {
                    Some(Ok(()))
                }
            },
            Err(LineParsingError::MissingBeginDelimiter(symbol)) => {
                if symbol == ']' {
                    self.close_ranged(&content)
                } else {
                    Some(Ok(()))
                }
            },
            Err(LineParsingError::UnmatchingRecordDelimiters(a, b)) => Some(
                Err(LineParsingError::UnmatchingRecordDelimiters(a, b)),
            ),
            Err(LineParsingError::MultipleRecordDelimiters(token)) => Some(
                Err(LineParsingError::MultipleRecordDelimiters(token)),
            ),
            Err(_) => Some(Ok(())),
        }
    }

    /// One line of the input with the number `number`.
    fn feed(&mut self, number: usize, raw: &Vec<char>) -> (r: Option<
        Result<bool, LineParsingError>,
    >)
        requires
            old(self).wf(),
        ensures
            match r {
                None => old(self)@.feed(number, raw@) is None,
                Some(Err(e)) => old(self)@.feed(number, raw@) == Some(
                    Err::<(ParserModel, bool), LineErrorModel>(e@),
                ),
                Some(Ok(ended)) => final(self).wf() && old(self)@.feed(number, raw@) == Some(
                    Ok::<(ParserModel, bool), LineErrorModel>((final(self)@, ended)),
                ),
            },
    {
        self.current_line = number;
        let line = remove_timestamp(raw);
        if line.len() == 0 {
            return Some(Ok(false));
        }
        match self.capturing_state {
            RecordCapturingState::OneShot => self.one_shot_state(&line),
            RecordCapturingState::Multiline => match self.multiline_capture_state(&line) {
                None => None,
                Some(Err(e)) => Some(Err(e)),
                Some(Ok(_)) => Some(Ok(false)),
            },
            RecordCapturingState::Ranged => match self.ranged_capture_state(&line) {
                None => None,
                Some(Err(e)) => Some(Err(e)),
                Some(Ok(_)) => Some(Ok(false)),
            },
        }
    }

    /// Finds the line that opens the sequence: its index and the
    /// sequence's name.
    fn move_to_begin_token(lines: &Vec<Vec<char>>) -> (r: Result<(usize, String), FileParsingError>)
        ensures
            match r {
                Ok((at, name)) => at < lines.len() && seek_begin(views(lines@), 0) == Ok::<
                    (int, Seq<char>),
                    FileErrorModel,
                >((at as int, name@)),
                Err(e) => seek_begin(views(lines@), 0) == Err::<(int, Seq<char>), FileErrorModel>(
                    e@,
                ),
            },
    {
        let mut at: usize = 0;
        while at < lines.len()
            invariant
                at <= lines.len(),
                seek_begin(views(lines@), 0) == seek_begin(views(lines@), at as int),
            decreases lines.len() - at,
        {
            assert(views(lines@)[at as int] == lines@[at as int]@);
            let line = remove_timestamp(&lines[at]);
            if line.len() > 0 {
                let (content, class) = get_delimited_content(&line);
                match class {
                    Ok(symbol) => {
                        if symbol == '<' {
                            return Ok((at, string_of(&content)));
                        }
                    },
                    Err(LineParsingError::UnparsableLine) => {},
                    Err(e) => {
                        return Err(FileParsingError::LineError { line_nb: at + 1, line_error: e });
                    },
                }
            }
            at += 1;
        }
        Err(FileParsingError::NoSequenceStart)
    }

    /// Parses the input from its first line, whatever lines the parser was
    /// given before: the model of the sequence, or the first error with its
    /// line. `None` where a field that the parser reaches lies outside the
    /// language.
    pub fn try_parse_file(self) -> (r: Option<Result<Model, FileParsingError>>)
        ensures
            match r {
                None => parse(self.input()) is None,
                Some(Ok(model)) => model.wf() && model@.sequence_name is Some && parse(
                    self.input(),
                ) == Some(Ok::<ModelView, FileErrorModel>(model@)),
                Some(Err(e)) => parse(self.input()) == Some(
                    Err::<ModelView, FileErrorModel>(e@),
                ),
            },
    {
        let mut parser = self;
        let text = chars_of(parser.input.as_str());
        let lines = split_lines(&text);
        let (begin, name) = match Parser::move_to_begin_token(&lines) {
            Ok(found) => found,
            Err(e) => {
                return Some(Err(e));
            },
        };
        parser.sequence_name = name;
        parser.model = Model::new();
        parser.capturing_state = RecordCapturingState::OneShot;
        parser.last_record_start_line = 0;
        parser.current_line = 0;
        parser.line_buffer = Vec::new();
        assert(parser@ == ParserModel::start(name@));
        match parser.run(&lines, begin + 1) {
            Advance::Defect => None,
            Advance::Failed(e) => Some(Err(e)),
            Advance::Ended => {
                let mut model = parser.model;
                model.set_sequence_name(parser.sequence_name);
                Some(Ok(model))
            },
            Advance::Continue => Some(
                Err(
                    FileParsingError::NoSequenceEnd {
                        last_record_start_line: parser.last_record_start_line,
                    },
                ),
            ),
        }
    }

    /// Feeds the lines from index `from` on, up to the end of the sequence,
    /// the first error, or the last line.
    fn run(&mut self, lines: &Vec<Vec<char>>, from: usize) -> (r: Advance)
        requires
            old(self).wf(),
            from <= lines.len(),
        ensures
            match r {
                Advance::Defect => old(self)@.run(views(lines@), from as int) is None,
                Advance::Failed(e) => old(self)@.run(views(lines@), from as int) == Some(
                    Err::<ModelView, FileErrorModel>(e@),
                ),
                Advance::Ended => final(self).wf() && old(self)@.run(views(lines@), from as int)
                    == Some(
                    Ok::<ModelView, FileErrorModel>(
                        ModelView {
                            sequence_name: Some(final(self)@.sequence_name),
                            ..final(self)@.model
                        },
                    ),
                ),
                Advance::Continue => final(self).wf() && old(self)@.run(
                    views(lines@),
                    from as int,
                ) == Some(
                    Err::<ModelView, FileErrorModel>(
                        FileErrorModel::NoSequenceEnd {
                            last_record_start_line: final(self)@.last_record_start_line,
                        },
                    ),
                ),
            },
    {
        let mut at: usize = from;
        while at < lines.len()
            invariant
                at <= lines.len(),
                self.wf(),
                old(self)@.run(views(lines@), from as int) == self@.run(views(lines@), at as int),
            decreases lines.len() - at,
        {
            match self.advance(lines, at) {
                Advance::Defect => {
                    return Advance::Defect;
                },
                Advance::Failed(e) => {
                    return Advance::Failed(e);
                },
                Advance::Ended => {
                    return Advance::Ended;
                },
                Advance::Continue => {},
            }
            at += 1;
        }
        Advance::Continue
    }

    /// Feeds the line at index `at` and says how the run goes on.
    fn advance(&mut self, lines: &Vec<Vec<char>>, at: usize) -> (r: Advance)
        requires
            old(self).wf(),
            at < lines.len(),
        ensures
            match r {
                Advance::Defect => old(self)@.run(views(lines@), at as int) is None,
                Advance::Failed(e) => old(self)@.run(views(lines@), at as int) == Some(
                    Err::<ModelView, FileErrorModel>(e@),
                ),
                Advance::Ended => final(self).wf() && old(self)@.run(views(lines@), at as int)
                    == Some(
                    Ok::<ModelView, FileErrorModel>(
                        ModelView {
                            sequence_name: Some(final(self)@.sequence_name),
                            ..final(self)@.model
                        },
                    ),
                ),
                Advance::Continue => final(self).wf() && old(self)@.run(views(lines@), at as int)
                    == final(self)@.run(views(lines@), at + 1),
            },
    {
        assert(views(lines@)[at as int] == lines@[at as int]@);
        match self.feed(at + 1, &lines[at]) {
            None => Advance::Defect,
            Some(Err(e)) => Advance::Failed(
                FileParsingError::LineError { line_nb: at + 1, line_error: e },
            ),
            Some(Ok(ended)) => {
                if ended {
                    Advance::Ended
                } else {
                    Advance::Continue
                }
            },
        }
    }

    /// Parses the input: the model of the sequence, or the first error with
    /// its line. The input must hold no field outside the language where
    /// the parser reaches one.
    pub fn parse_file(self) -> (r: Result<Model, FileParsingError>)
        requires
            parse(self.input()) is Some,
        ensures
            match r {
                Ok(model) => model.wf() && model@.sequence_name is Some && parse(self.input())
                    == Some(Ok::<ModelView, FileErrorModel>(model@)),
                Err(e) => parse(self.input()) == Some(Err::<ModelView, FileErrorModel>(e@)),
            },
    {
        match self.try_parse_file() {
            Some(r) => r,
            None => Err(FileParsingError::NoSequenceStart),
        }
    }
}

} // verus!
