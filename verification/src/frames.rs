//! Frames as an answer shows them.

use vstd::prelude::*;
use crate::capture::{BacktraceId, Data, Frame, StringId};
use crate::text::{chars_of, digits_of, ends_with, is_suffix, text_of, to_hex_u64};

verus! {

/// The word after which `<` is an operator and opens no template.
pub open spec fn operator_word() -> Seq<char> {
    seq!['o', 'p', 'e', 'r', 'a', 't', 'o', 'r']
}

/// How far a name has been read while its template arguments are taken
/// out.
pub struct Stripping {
    /// What has been written.
    pub out: Seq<char>,
    /// What stands inside the template that is open.
    pub buffered: Seq<char>,
    /// How many templates are open, one inside the other.
    pub depth: nat,
}

impl Stripping {
    pub open spec fn start() -> Stripping {
        Stripping { out: Seq::empty(), buffered: Seq::empty(), depth: 0 }
    }

    /// Reads one more character. Outside of templates each character is
    /// written as it is. A `<` opens a template, unless it stands after the
    /// word `operator`; what stands inside a template is not written, and
    /// when the outermost template closes `...>` is written in its place.
    pub open spec fn step(self, ch: char) -> Stripping {
        if ch == '<' {
            if is_suffix(self.out, operator_word()) {
                Stripping { out: self.out.push(ch), ..self }
            } else if self.depth == 0 {
                Stripping { out: self.out.push(ch), buffered: Seq::empty(), depth: 1 }
            } else {
                Stripping { buffered: self.buffered.push(ch), depth: self.depth + 1, ..self }
            }
        } else if self.depth > 0 {
            if ch == '>' {
                if self.depth == 1 {
                    Stripping {
                        out: self.out + seq!['.', '.', '.', '>'],
                        buffered: Seq::empty(),
                        depth: 0,
                    }
                } else {
                    Stripping { depth: (self.depth - 1) as nat, ..self }
                }
            } else {
                Stripping { buffered: self.buffered.push(ch), ..self }
            }
        } else {
            Stripping { out: self.out.push(ch), ..self }
        }
    }

    /// Reads a whole text.
    pub open spec fn read(text: Seq<char>) -> Stripping
        decreases text.len(),
    {
        if text.len() == 0 {
            Stripping::start()
        } else {
            Stripping::read(text.drop_last()).step(text.last())
        }
    }
}

/// A name without its template arguments. Of a template that is never
/// closed the inside is kept.
pub open spec fn stripped(name: Seq<char>) -> Seq<char> {
    Stripping::read(name).out + Stripping::read(name).buffered
}

/// Takes the template arguments out of a name.
pub fn strip_template(input: &str) -> (r: String)
    ensures
        r@ == stripped(input@),
{
    let input = chars_of(input);
    let operator: [char; 8] = ['o', 'p', 'e', 'r', 'a', 't', 'o', 'r'];
    assert(operator@ =~= operator_word());
    let mut out: Vec<char> = Vec::new();
    let mut buffered: Vec<char> = Vec::new();
    let mut depth: usize = 0;
    let mut i: usize = 0;
    while i < input.len()
        invariant
            0 <= i <= input.len(),
            operator@ == operator_word(),
            depth <= i,
            Stripping::read(input@.take(i as int)) == (Stripping {
                out: out@,
                buffered: buffered@,
                depth: depth as nat,
            }),
        decreases input.len() - i,
    {
        let ch: char = input[i];
        assert(input@.take(i + 1).drop_last() =~= input@.take(i as int));
        if ch == '<' {
            if ends_with(&out, operator.as_slice()) {
                out.push(ch);
            } else if depth == 0 {
                buffered.clear();
                out.push(ch);
                depth = 1;
            } else {
                buffered.push(ch);
                depth += 1;
            }
        } else if depth > 0 {
            if ch == '>' {
                depth -= 1;
                if depth == 0 {
                    let ghost before = out@;
                    out.push('.');
                    out.push('.');
                    out.push('.');
                    out.push(ch);
                    assert(out@ =~= before + seq!['.', '.', '.', '>']);
                    buffered.clear();
                }
            } else {
                buffered.push(ch);
            }
        } else {
            out.push(ch);
        }
        i += 1;
    }
    assert(input@.take(input.len() as int) =~= input@);
    let mut k: usize = 0;
    while k < buffered.len()
        invariant
            0 <= k <= buffered.len(),
            out@ == Stripping::read(input@).out + buffered@.take(k as int),
        decreases buffered.len() - k,
    {
        out.push(buffered[k]);
        assert(buffered@.take(k + 1) =~= buffered@.take(k as int).push(buffered[k as int]));
        k += 1;
    }
    assert(buffered@.take(buffered.len() as int) =~= buffered@);
    text_of(out.as_slice())
}

/// How the backtraces of an answer are to be shown.
#[derive(Clone, Copy, Debug, PartialEq, Eq, Structural, Hash)]
pub struct BacktraceFormat {
    pub strip_template_args: Option<bool>,
}

/// A frame as an answer shows it.
#[derive(Debug)]
pub struct ResponseFrame {
    pub address: u64,
    pub address_s: String,
    pub count: u64,
    pub library: Option<String>,
    pub function: Option<String>,
    pub raw_function: Option<String>,
    pub source: Option<String>,
    pub line: Option<u32>,
    pub column: Option<u32>,
    pub is_inline: bool,
}

/// The text of an optional string of a capture.
pub open spec fn text_at(data: &Data, id: Option<StringId>) -> Option<Seq<char>> {
    match id {
        Some(id) => Some(data.strings[id as int]@),
        None => None,
    }
}

/// The text of an optional text.
pub open spec fn shown(text: Option<String>) -> Option<Seq<char>> {
    match text {
        Some(text) => Some(text@),
        None => None,
    }
}

/// Whether template arguments are to be taken out of function names.
pub open spec fn strips(format: &BacktraceFormat) -> bool {
    format.strip_template_args == Some(true)
}

impl ResponseFrame {
    /// The record shows `frame` of `data` in the way that `format` asks
    /// for: the strings of the frame are resolved, the function name is
    /// shown without template arguments where that is asked for, and the
    /// address is shown as a number and in sixteen hexadecimal digits.
    pub open spec fn shows(&self, data: &Data, format: &BacktraceFormat, frame: Frame) -> bool {
        &&& self.address == frame.address
        &&& self.address_s@ == digits_of(frame.address, 16, 16, true)
        &&& self.count == frame.count
        &&& shown(self.library) == text_at(data, frame.library)
        &&& shown(self.function) == match text_at(data, frame.function) {
            Some(name) => Some(if strips(format) { stripped(name) } else { name }),
            None => None,
        }
        &&& shown(self.raw_function) == text_at(data, frame.raw_function)
        &&& shown(self.source) == text_at(data, frame.source)
        &&& self.line == frame.line
        &&& self.column == frame.column
        &&& self.is_inline == frame.is_inline
    }
}

fn resolve(data: &Data, id: Option<StringId>) -> (r: Option<String>)
    requires
        id matches Some(id) ==> id < data.strings.len(),
    ensures
        shown(r) == text_at(data, id),
{
    match id {
        Some(id) => Some(data.strings[id].clone()),
        None => None,
    }
}

/// Shows a frame of a capture in the way that `format` asks for.
pub fn get_frame(data: &Data, format: &BacktraceFormat, frame: &Frame) -> (r: ResponseFrame)
    requires
        frame.wf(data.strings.len() as int),
    ensures
        r.shows(data, format, *frame),
{
    let strip = match format.strip_template_args {
        Some(strip) => strip,
        None => false,
    };
    let function = match frame.function {
        Some(id) => {
            if strip {
                Some(strip_template(data.resolve(id)))
            } else {
                Some(data.strings[id].clone())
            }
        },
        None => None,
    };

    ResponseFrame {
        address: frame.address,
        address_s: to_hex_u64(frame.address),
        count: frame.count,
        library: resolve(data, frame.library),
        function,
        raw_function: resolve(data, frame.raw_function),
        source: resolve(data, frame.source),
        line: frame.line,
        column: frame.column,
        is_inline: frame.is_inline,
    }
}

/// The frames `shown` show the frames `backtrace` of `data`, one by one.
pub open spec fn shows_backtrace(
    data: &Data,
    format: &BacktraceFormat,
    backtrace: Seq<usize>,
    shown: Seq<ResponseFrame>,
) -> bool {
    &&& shown.len() == backtrace.len()
    &&& forall|i: int|
        0 <= i < shown.len() ==> (#[trigger] shown[i]).shows(data, format, data.frames[backtrace[i] as int])
}

/// The frames of the backtrace `backtrace` of a capture, each as `format`
/// asks for.
pub fn get_backtrace_of(data: &Data, format: &BacktraceFormat, backtrace: BacktraceId) -> (r: Vec<
    ResponseFrame,
>)
    requires
        data.wf(),
        backtrace < data.backtraces.len(),
    ensures
        shows_backtrace(data, format, data.backtraces[backtrace as int]@, r@),
{
    let frames = &data.backtraces[backtrace as usize];
    assert forall|i: int| 0 <= i < frames.len() implies frames[i] < data.frames.len() by {
        assert(data.backtraces[backtrace as int][i] < data.frames.len());
    }
    get_backtrace(data, format, frames)
}

/// The frames of a backtrace of a capture, each as `format` asks for.
pub fn get_backtrace(data: &Data, format: &BacktraceFormat, backtrace: &Vec<usize>) -> (r: Vec<
    ResponseFrame,
>)
    requires
        data.wf(),
        forall|i: int| 0 <= i < backtrace.len() ==> backtrace[i] < data.frames.len(),
    ensures
        r.len() == backtrace.len(),
        forall|i: int|
            0 <= i < r.len() ==> (#[trigger] r[i]).shows(data, format, data.frames[backtrace[i] as int]),
{
    let mut frames: Vec<ResponseFrame> = Vec::new();
    let mut i: usize = 0;
    while i < backtrace.len()
        invariant
            data.wf(),
            0 <= i <= backtrace.len(),
            forall|i: int| 0 <= i < backtrace.len() ==> backtrace[i] < data.frames.len(),
            frames.len() == i,
            forall|k: int|
                0 <= k < i ==> (#[trigger] frames[k]).shows(
                    data,
                    format,
                    data.frames[backtrace[k] as int],
                ),
        decreases backtrace.len() - i,
    {
        let frame = &data.frames[backtrace[i]];
        frames.push(get_frame(data, format, frame));
        i += 1;
    }
    frames
}

} // verus!
