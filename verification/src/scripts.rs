//! What scripts are given, and what is made of what they hand back.

use std::sync::Arc;
use vstd::prelude::*;
use crate::capture::BacktraceId;
use crate::generated::{content_hash, hash_of, GeneratedFile};
use crate::protocol::CustomFilter;
use crate::text::{append_chars, chars_of, decimal_width, digits_of, text_of, to_decimal};
use crate::timestamp::Timestamp;

verus! {

/// Something that a script has put out.
#[derive(Debug)]
pub enum ScriptOutputKind {
    PrintLine(String),
    Image { path: String, data: Arc<Vec<u8>> },
}

/// Something that a script has put out, as an answer tells of it.
#[derive(Debug)]
pub enum ScriptOutput {
    PrintLine { value: String },
    Image { url: String, basename: String, path: String, checksum: String },
}

/// The place of the last `/` of a path, or -1 where it has none.
pub open spec fn last_slash(path: Seq<char>) -> int
    decreases path.len(),
{
    if path.len() == 0 {
        -1
    } else if path.last() == '/' {
        path.len() - 1
    } else {
        last_slash(path.drop_last())
    }
}

/// The name of a file without the directories that lead to it.
pub open spec fn basename_of(path: Seq<char>) -> Seq<char> {
    path.skip(last_slash(path) + 1)
}

proof fn lemma_last_slash(path: Seq<char>)
    ensures
        -1 <= last_slash(path) < path.len(),
    decreases path.len(),
{
    if path.len() > 0 && path.last() != '/' {
        lemma_last_slash(path.drop_last());
    }
}

/// The name of a file without the directories that lead to it.
pub fn basename(path: &str) -> (r: String)
    ensures
        r@ == basename_of(path@),
{
    let chars = chars_of(path);
    let mut start: usize = 0;
    let mut i: usize = 0;
    while i < chars.len()
        invariant
            0 <= i <= chars.len(),
            start == last_slash(chars@.take(i as int)) + 1,
        decreases chars.len() - i,
    {
        assert(chars@.take(i + 1).drop_last() =~= chars@.take(i as int));
        proof {
            lemma_last_slash(chars@.take(i as int));
        }
        if chars[i] == '/' {
            start = i + 1;
        }
        i += 1;
    }
    assert(chars@.take(chars.len() as int) =~= chars@);
    proof {
        lemma_last_slash(chars@);
    }
    let name = vstd::slice::slice_subrange(chars.as_slice(), start, chars.len());
    assert(name@ =~= chars@.skip(start as int));
    text_of(name)
}

/// The address under which a file of a script is served.
pub open spec fn url_of(data_id: Seq<char>, hash: Seq<char>, basename: Seq<char>) -> Seq<char> {
    "/data/"@ + data_id + "/script_files/"@ + hash + "/"@ + basename
}

/// The address under which a file of a script is served.
pub fn script_file_url(data_id: &str, hash: &str, basename: &str) -> (r: String)
    ensures
        r@ == url_of(data_id@, hash@, basename@),
{
    let mut url = String::from_str("/data/");
    url.append(data_id);
    url.append("/script_files/");
    url.append(hash);
    url.append("/");
    url.append(basename);
    url
}

/// The kind of content that the images of scripts are.
pub open spec fn image_mime() -> Seq<char> {
    "image/svg+xml"@
}

/// What an answer tells of one output of a script.
pub open spec fn told(data_id: Seq<char>, output: ScriptOutputKind, told: ScriptOutput) -> bool {
    match output {
        ScriptOutputKind::PrintLine(line) => told matches ScriptOutput::PrintLine { value } && value@
            == line@,
        ScriptOutputKind::Image { path, data } => {
            &&& told matches ScriptOutput::Image { url, basename, path: shown, checksum }
            &&& shown@ == path@
            &&& basename@ == basename_of(path@)
            &&& checksum@ == hash_of(data@)
            &&& url@ == url_of(data_id, hash_of(data@), basename_of(path@))
        },
    }
}

/// The address under which an image is served.
pub open spec fn image_url(data_id: Seq<char>, output: ScriptOutputKind) -> Seq<char> {
    match output {
        ScriptOutputKind::Image { path, data } => url_of(data_id, hash_of(data@), basename_of(path@)),
        ScriptOutputKind::PrintLine(_) => Seq::empty(),
    }
}

/// The addresses under which the images among some outputs are served, in
/// the order of the outputs.
pub open spec fn image_urls(data_id: Seq<char>, outputs: Seq<ScriptOutputKind>) -> Seq<Seq<char>>
    decreases outputs.len(),
{
    if outputs.len() == 0 {
        Seq::empty()
    } else if outputs.last() is Image {
        image_urls(data_id, outputs.drop_last()).push(image_url(data_id, outputs.last()))
    } else {
        image_urls(data_id, outputs.drop_last())
    }
}

/// The outputs that are images, in their order.
pub open spec fn images_of(outputs: Seq<ScriptOutputKind>) -> Seq<ScriptOutputKind> {
    outputs.filter(|output: ScriptOutputKind| output is Image)
}

/// The file that is kept for an image.
pub open spec fn kept_for(output: ScriptOutputKind, now: Timestamp, file: GeneratedFile) -> bool {
    output matches ScriptOutputKind::Image { path, data } && {
        &&& file.timestamp == now
        &&& file.hash@ == hash_of(data@)
        &&& file.mime@ == image_mime()
        &&& file.data == data
    }
}

/// Goes through what a script has put out.
///
/// Each output is told of in the answer, in its place. Each image is also
/// made a file that is kept under the hash of its content and served under
/// an address that holds the hash; `now` is the moment that the files are
/// dated with.
pub fn collect_outputs(data_id: &str, outputs: Vec<ScriptOutputKind>, now: Timestamp) -> (r: (
    Vec<ScriptOutput>,
    Vec<GeneratedFile>,
))
    ensures
        r.0.len() == outputs.len(),
        forall|i: int| 0 <= i < outputs.len() ==> told(data_id@, outputs[i], #[trigger] r.0[i]),
        r.1.len() == images_of(outputs@).len(),
        forall|i: int| 0 <= i < r.1.len() ==> kept_for(images_of(outputs@)[i], now, #[trigger] r.1[i]),
{
    let mut shown: Vec<ScriptOutput> = Vec::new();
    let mut files: Vec<GeneratedFile> = Vec::new();
    let mut i: usize = 0;
    while i < outputs.len()
        invariant
            0 <= i <= outputs.len(),
            shown.len() == i,
            forall|k: int| 0 <= k < i ==> told(data_id@, outputs[k], #[trigger] shown[k]),
            files.len() == images_of(outputs@.take(i as int)).len(),
            forall|k: int|
                0 <= k < files.len() ==> kept_for(
                    images_of(outputs@.take(i as int))[k],
                    now,
                    #[trigger] files[k],
                ),
        decreases outputs.len() - i,
    {
        proof {
            reveal(Seq::filter);
            assert(outputs@.take(i + 1).drop_last() =~= outputs@.take(i as int));
        }
        match &outputs[i] {
            ScriptOutputKind::PrintLine(line) => {
                shown.push(ScriptOutput::PrintLine { value: line.clone() });
            },
            ScriptOutputKind::Image { path, data } => {
                let hash = content_hash(data.as_slice());
                let name = basename(path.as_str());
                let url = script_file_url(data_id, hash.as_str(), name.as_str());
                shown.push(
                    ScriptOutput::Image {
                        url,
                        basename: name,
                        path: path.clone(),
                        checksum: hash.clone(),
                    },
                );
                files.push(
                    GeneratedFile {
                        timestamp: now,
                        hash,
                        mime: String::from_str("image/svg+xml"),
                        data: data.clone(),
                    },
                );
            },
        }
        i += 1;
    }
    assert(outputs@.take(outputs.len() as int) =~= outputs@);
    (shown, files)
}

/// The script that draws the graphs of a group: one with axes and legend,
/// and a small one without.
pub open spec fn graph_script_of(backtrace_id: BacktraceId) -> Seq<char> {
    "let graph = graph().add(\"Matched\", allocations()).add(\"Global\", data().allocations().only_matching_backtraces(["@
        + digits_of(backtrace_id as u64, 10, decimal_width(backtrace_id as u64), false)
        + "])).save().without_axes().without_legend().save();"@
}

/// The script that draws the graphs of a group.
pub fn graph_script(backtrace_id: BacktraceId) -> (r: String)
    ensures
        r@ == graph_script_of(backtrace_id),
{
    let mut code = String::from_str(
        "let graph = graph().add(\"Matched\", allocations()).add(\"Global\", data().allocations().only_matching_backtraces([",
    );
    let id = to_decimal(backtrace_id as u64);
    code.append(id.as_str());
    code.append("])).save().without_axes().without_legend().save();");
    code
}

/// How far a text has been cut into lines.
pub struct Cutting {
    pub lines: Seq<Seq<char>>,
    pub current: Seq<char>,
}

impl Cutting {
    /// A line ends at a line feed; a carriage return right before the line
    /// feed is no part of the line.
    pub open spec fn step(self, ch: char) -> Cutting {
        if ch == '\n' {
            let line = if self.current.len() > 0 && self.current.last() == '\r' {
                self.current.drop_last()
            } else {
                self.current
            };
            Cutting { lines: self.lines.push(line), current: Seq::empty() }
        } else {
            Cutting { current: self.current.push(ch), ..self }
        }
    }

    pub open spec fn read(text: Seq<char>) -> Cutting
        decreases text.len(),
    {
        if text.len() == 0 {
            Cutting { lines: Seq::empty(), current: Seq::empty() }
        } else {
            Cutting::read(text.drop_last()).step(text.last())
        }
    }
}

/// The lines of a text. What stands after the last line feed is a line if
/// anything stands there.
pub open spec fn lines_of(text: Seq<char>) -> Seq<Seq<char>> {
    let cut = Cutting::read(text);
    if cut.current.len() > 0 {
        cut.lines.push(cut.current)
    } else {
        cut.lines
    }
}

/// The lines `lines`, each set in by four blanks and ended by a line feed.
pub open spec fn indented(lines: Seq<Seq<char>>) -> Seq<char>
    decreases lines.len(),
{
    if lines.len() == 0 {
        Seq::empty()
    } else {
        indented(lines.drop_last()) + seq![' ', ' ', ' ', ' '] + lines.last() + seq!['\n']
    }
}

/// What is put in front of the code of a filter so that the script of the
/// request can be called from it: the script as the body of a function, and
/// a call of that function. Nothing where the request has no script.
pub open spec fn prologue_of(custom_filter: &CustomFilter) -> Seq<char> {
    match custom_filter.custom_filter {
        Some(script) => "fn custom_filter() {\n"@ + indented(lines_of(script@))
            + "}\n\nlet filtered = custom_filter();\n"@,
        None => Seq::empty(),
    }
}

/// What is put in front of the code of a filter.
pub fn prologue(custom_filter: &CustomFilter) -> (r: String)
    ensures
        r@ == prologue_of(custom_filter),
{
    let script = match &custom_filter.custom_filter {
        Some(script) => chars_of(script.as_str()),
        None => {
            return String::new();
        },
    };
    let blanks: [char; 4] = [' ', ' ', ' ', ' '];
    let mut body: Vec<char> = Vec::new();
    let mut current: Vec<char> = Vec::new();
    let mut i: usize = 0;
    while i < script.len()
        invariant
            0 <= i <= script.len(),
            blanks@ == seq![' ', ' ', ' ', ' '],
            body@ == indented(Cutting::read(script@.take(i as int)).lines),
            current@ == Cutting::read(script@.take(i as int)).current,
        decreases script.len() - i,
    {
        assert(script@.take(i + 1).drop_last() =~= script@.take(i as int));
        let ch: char = script[i];
        if ch == '\n' {
            if current.len() > 0 && current[current.len() - 1] == '\r' {
                current.pop();
            }
            let ghost before = body@;
            let ghost lines = Cutting::read(script@.take(i as int)).lines;
            append_chars(&mut body, blanks.as_slice());
            append_chars(&mut body, current.as_slice());
            body.push('\n');
            assert(lines.push(current@).drop_last() =~= lines);
            assert(body@ =~= before + seq![' ', ' ', ' ', ' '] + current@ + seq!['\n']);
            current.clear();
        } else {
            current.push(ch);
        }
        i += 1;
    }
    assert(script@.take(script.len() as int) =~= script@);
    if current.len() > 0 {
        let ghost before = body@;
        let ghost lines = Cutting::read(script@).lines;
        append_chars(&mut body, blanks.as_slice());
        append_chars(&mut body, current.as_slice());
        body.push('\n');
        assert(lines.push(current@).drop_last() =~= lines);
        assert(body@ =~= before + seq![' ', ' ', ' ', ' '] + current@ + seq!['\n']);
    }
    let mut text = String::from_str("fn custom_filter() {\n");
    let body = text_of(body.as_slice());
    text.append(body.as_str());
    text.append("}\n\nlet filtered = custom_filter();\n");
    text
}

} // verus!
