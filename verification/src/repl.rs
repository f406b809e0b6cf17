//! What the interactive prompt decides about typed input: whether a line continues on
//! the next one and what multi-line input adds up to, which completion a cursor position
//! asks for and which candidates it gets, and the content blocks an `/add` sends.
use vstd::prelude::*;
use crate::text::{
    byte_len, byte_len_exec, chars_of, ends_with, is_alpha, extend, extend_str, find, find_char,
    find_char_from, find_str, is_whitespace, is_ws, key_less, key_less_exec, lemma_key_less_total,
    lemma_key_less_transitive, slice_vec, starts_with, starts_with_str, string_of, trim, trim_vec,
    width,
};

verus! {

// ───────────────────────────── typed lines ─────────────────────────────

/// What a typed line asks for, once trimmed.
#[derive(Debug, PartialEq, Eq)]
pub enum ReplLine {
    /// Nothing but whitespace: prompt again.
    Blank,
    /// `/quit` or `/exit`: leave the loop.
    Quit,
    /// A slash command: `name` is its first word, `line` the whole trimmed line.
    Command { name: String, line: String },
    /// Anything else is a prompt for the agent.
    Prompt { text: String },
}

/// The view of a typed line's meaning.
pub enum ReplLineV {
    Blank,
    Quit,
    Command { name: Seq<char>, line: Seq<char> },
    Prompt { text: Seq<char> },
}

impl ReplLine {
    pub open spec fn view(&self) -> ReplLineV {
        match self {
            ReplLine::Blank => ReplLineV::Blank,
            ReplLine::Quit => ReplLineV::Quit,
            ReplLine::Command { name, line } => ReplLineV::Command { name: name@, line: line@ },
            ReplLine::Prompt { text } => ReplLineV::Prompt { text: text@ },
        }
    }
}

/// The first word of a line: its characters up to the first whitespace.
pub open spec fn first_word(t: Seq<char>) -> Seq<char> {
    t.take(crate::text::run_end(t, 0, |c: char| !is_ws(c)))
}

/// What a typed line means: blank, a request to quit, a slash command, or a prompt.
pub open spec fn repl_line_of(line: Seq<char>) -> ReplLineV {
    let t = trim(line);
    if t.len() == 0 {
        ReplLineV::Blank
    } else if t == "/quit"@ || t == "/exit"@ {
        ReplLineV::Quit
    } else if t[0] == '/' {
        ReplLineV::Command { name: first_word(t), line: t }
    } else {
        ReplLineV::Prompt { text: t }
    }
}

fn first_word_exec(t: &[char]) -> (r: Vec<char>)
    ensures
        r@ == first_word(t@),
{
    let mut i: usize = 0;
    while i < t.len() && !is_whitespace(t[i])
        invariant
            i <= t@.len(),
            crate::text::run_end(t@, 0, |c: char| !is_ws(c)) == crate::text::run_end(
                t@,
                i as int,
                |c: char| !is_ws(c),
            ),
        decreases t.len() - i,
    {
        i = i + 1;
    }
    proof {
        crate::text::lemma_run_end(t@, 0, |c: char| !is_ws(c));
    }
    slice_vec(t, 0, i)
}

/// Classifies a line typed at the prompt. The line is trimmed first; an empty line is
/// blank, `/quit` and `/exit` quit, a line starting with `/` is a command named by its
/// first word, and anything else is a prompt.
pub fn classify_repl_line(line: &str) -> (r: ReplLine)
    ensures
        r@ == repl_line_of(line@),
{
    let c = chars_of(line);
    let t = trim_vec(c.as_slice());
    if t.len() == 0 {
        ReplLine::Blank
    } else if crate::text::eq_str(t.as_slice(), "/quit") || crate::text::eq_str(t.as_slice(), "/exit") {
        ReplLine::Quit
    } else if t[0] == '/' {
        let name = first_word_exec(t.as_slice());
        ReplLine::Command { name: string_of(name.as_slice()), line: string_of(t.as_slice()) }
    } else {
        ReplLine::Prompt { text: string_of(t.as_slice()) }
    }
}

// ───────────────────────────── continuation lines ─────────────────────────────

/// A line continues on the next one when it ends with a backslash or opens a code fence.
pub open spec fn continues(line: Seq<char>) -> bool {
    ends_with(line, seq!['\\']) || starts_with(line, "```"@)
}

/// Whether typed input continues on the next line.
pub fn needs_continuation(line: &str) -> (r: bool)
    ensures
        r == continues(line@),
{
    let l = chars_of(line);
    let n = l.len();
    let backslash = n > 0 && l[n - 1] == '\\';
    assert(backslash == ends_with(l@, seq!['\\'])) by {
        if n > 0 {
            assert(l@.subrange(n - 1, n as int) =~= seq![l@[n - 1]]);
            if ends_with(l@, seq!['\\']) {
                assert(l@.subrange(n - 1, n as int)[0] == '\\');
            }
        }
    }
    backslash || starts_with_str(l.as_slice(), "```")
}

/// Whether more lines are needed.
#[derive(Debug, Clone, Copy, PartialEq, Eq, Structural)]
pub enum Continuation {
    /// Read another line and feed it.
    NeedLine,
    /// The input is complete.
    Complete,
}

/// Multi-line input being collected: a code fence runs until a line that is just the
/// closing fence; otherwise every line ending in a backslash continues, without it.
pub struct MultilineInput {
    buf: Vec<char>,
    fence: bool,
}

/// A fence line: the closing ``` alone, ignoring surrounding whitespace.
pub open spec fn closes_fence(line: Seq<char>) -> bool {
    trim(line) == "```"@
}

impl MultilineInput {
    /// What has been collected so far.
    pub closed spec fn collected(&self) -> Seq<char> {
        self.buf@
    }

    /// Whether the input is a code fence.
    pub closed spec fn in_fence(&self) -> bool {
        self.fence
    }

    /// One line of backslash-continued input: the line without its backslash and a
    /// newline when it continues, else the line itself, which completes the input.
    fn backslash_line(&mut self, line: &str) -> (r: Continuation)
        requires
            !old(self).fence,
        ensures
            !final(self).fence,
            ends_with(line@, seq!['\\']) ==> r == Continuation::NeedLine && final(self).buf@ == old(
                self,
            ).buf@ + line@.drop_last() + seq!['\n'],
            !ends_with(line@, seq!['\\']) ==> r == Continuation::Complete && final(self).buf@ == old(
                self,
            ).buf@ + line@,
    {
        let l = chars_of(line);
        let n = l.len();
        let backslash = n > 0 && l[n - 1] == '\\';
        assert(backslash == ends_with(l@, seq!['\\'])) by {
            if n > 0 {
                assert(l@.subrange(n - 1, n as int) =~= seq![l@[n - 1]]);
                if ends_with(l@, seq!['\\']) {
                    assert(l@.subrange(n - 1, n as int)[0] == '\\');
                }
            }
        }
        if backslash {
            let kept = slice_vec(l.as_slice(), 0, n - 1);
            assert(kept@ =~= line@.drop_last());
            extend(&mut self.buf, kept.as_slice());
            self.buf.push('\n');
            Continuation::NeedLine
        } else {
            extend(&mut self.buf, l.as_slice());
            Continuation::Complete
        }
    }

    /// Starts collecting with the first line: a code fence keeps it whole and asks for
    /// more; otherwise it is read as a backslash-continued line.
    pub fn start(first_line: &str) -> (r: (Self, Continuation))
        ensures
            r.0.in_fence() == starts_with(first_line@, "```"@),
            starts_with(first_line@, "```"@) ==> r.1 == Continuation::NeedLine && r.0.collected()
                == first_line@ + seq!['\n'],
            !starts_with(first_line@, "```"@) && ends_with(first_line@, seq!['\\']) ==> r.1
                == Continuation::NeedLine && r.0.collected() == first_line@.drop_last() + seq!['\n'],
            !starts_with(first_line@, "```"@) && !ends_with(first_line@, seq!['\\']) ==> r.1
                == Continuation::Complete && r.0.collected() == first_line@,
    {
        let l = chars_of(first_line);
        if starts_with_str(l.as_slice(), "```") {
            let mut buf = l;
            buf.push('\n');
            (MultilineInput { buf, fence: true }, Continuation::NeedLine)
        } else {
            let mut input = MultilineInput { buf: Vec::new(), fence: false };
            assert(input.buf@ =~= Seq::<char>::empty());
            let c = input.backslash_line(first_line);
            assert(Seq::<char>::empty() + first_line@ =~= first_line@);
            assert(Seq::<char>::empty() + first_line@.drop_last() + seq!['\n'] =~= first_line@.drop_last()
                + seq!['\n']);
            (input, c)
        }
    }

    /// Takes the next line. In a fence it is kept with its newline, and a closing fence
    /// completes the input; otherwise it is read as a backslash-continued line.
    pub fn feed(&mut self, line: &str) -> (r: Continuation)
        ensures
            final(self).in_fence() == old(self).in_fence(),
            old(self).in_fence() ==> final(self).collected() == old(self).collected() + line@
                + seq!['\n'] && (r == Continuation::Complete <==> closes_fence(line@)),
            !old(self).in_fence() && ends_with(line@, seq!['\\']) ==> r == Continuation::NeedLine
                && final(self).collected() == old(self).collected() + line@.drop_last() + seq!['\n'],
            !old(self).in_fence() && !ends_with(line@, seq!['\\']) ==> r == Continuation::Complete
                && final(self).collected() == old(self).collected() + line@,
    {
        if self.fence {
            let l = chars_of(line);
            extend(&mut self.buf, l.as_slice());
            self.buf.push('\n');
            let t = trim_vec(l.as_slice());
            if crate::text::eq_str(t.as_slice(), "```") {
                Continuation::Complete
            } else {
                Continuation::NeedLine
            }
        } else {
            self.backslash_line(line)
        }
    }

    /// The collected input (also when input ended before it was complete).
    pub fn into_text(self) -> (r: String)
        ensures
            r@ == self.collected(),
    {
        string_of(self.buf.as_slice())
    }
}

// ───────────────────────────── image labels ─────────────────────────────

/// `s` with ANSI escape sequences removed: an ESC starts one, and the next ASCII letter
/// ends it; the result beside whether an escape is still open.
pub open spec fn strip_ansi_state(s: Seq<char>) -> (Seq<char>, bool)
    decreases s.len(),
{
    if s.len() == 0 {
        (Seq::empty(), false)
    } else {
        let (out, in_escape) = strip_ansi_state(s.drop_last());
        let c = s.last();
        if c == '\x1b' {
            (out, true)
        } else if in_escape {
            (out, !is_alpha(c))
        } else {
            (out.push(c), false)
        }
    }
}

/// `s` with ANSI escape sequences removed.
pub open spec fn strip_ansi(s: Seq<char>) -> Seq<char> {
    strip_ansi_state(s).0
}

/// Stripping text that follows a closed escape strips each part on its own.
pub(crate) proof fn lemma_strip_ansi_append(a: Seq<char>, b: Seq<char>)
    requires
        !strip_ansi_state(a).1,
    ensures
        strip_ansi_state(a + b) == (strip_ansi_state(a).0 + strip_ansi_state(b).0,
        strip_ansi_state(b).1),
    decreases b.len(),
{
    if b.len() == 0 {
        assert(a + b =~= a);
        assert(strip_ansi_state(a).0 + Seq::<char>::empty() =~= strip_ansi_state(a).0);
    } else {
        lemma_strip_ansi_append(a, b.drop_last());
        assert((a + b).drop_last() =~= a + b.drop_last());
        assert((a + b).last() == b.last());
        let (x, _) = strip_ansi_state(a);
        let (y, _) = strip_ansi_state(b.drop_last());
        assert((x + y).push(b.last()) =~= x + y.push(b.last()));
    }
}

/// Text without an escape character is kept whole.
pub(crate) proof fn lemma_strip_ansi_plain(t: Seq<char>)
    requires
        forall|j: int| 0 <= j < t.len() ==> #[trigger] t[j] != '\x1b',
    ensures
        strip_ansi_state(t) == (t, false),
    decreases t.len(),
{
    if t.len() > 0 {
        lemma_strip_ansi_plain(t.drop_last());
        assert(t.drop_last().push(t.last()) =~= t);
    }
}

/// An escape character followed by non-letters leaves the escape open and adds nothing.
proof fn lemma_strip_ansi_open(mid: Seq<char>)
    requires
        forall|j: int| 0 <= j < mid.len() ==> #[trigger] mid[j] != '\x1b' && !is_alpha(mid[j]),
    ensures
        strip_ansi_state(seq!['\x1b'] + mid) == (Seq::<char>::empty(), true),
    decreases mid.len(),
{
    let s = seq!['\x1b'] + mid;
    if mid.len() == 0 {
        assert(s =~= seq!['\x1b']);
        assert(s.drop_last() =~= Seq::<char>::empty());
        assert(strip_ansi_state(s.drop_last()) == (Seq::<char>::empty(), false));
        assert(s.last() == '\x1b');
    } else {
        lemma_strip_ansi_open(mid.drop_last());
        assert(mid.last() == mid[mid.len() - 1]);
        assert(s.drop_last() =~= seq!['\x1b'] + mid.drop_last());
        assert(s.last() == mid.last());
    }
}

/// An SGR colour code (`ESC`, parameters, `m`) strips to nothing and closes.
pub(crate) proof fn lemma_strip_ansi_sgr(mid: Seq<char>)
    requires
        forall|j: int| 0 <= j < mid.len() ==> #[trigger] mid[j] != '\x1b' && !is_alpha(mid[j]),
    ensures
        strip_ansi_state(seq!['\x1b'] + mid + seq!['m']) == (Seq::<char>::empty(), false),
{
    lemma_strip_ansi_open(mid);
    let s = seq!['\x1b'] + mid + seq!['m'];
    assert(s.drop_last() =~= seq!['\x1b'] + mid);
    assert(s.last() == 'm');
}

/// The label of an added image: what follows `added image ` in its summary (escape codes
/// removed, trimmed), or `image (<mime type>)` when there is nothing there.
pub open spec fn image_label(summary: Seq<char>, fallback_mime: Seq<char>) -> Seq<char> {
    let stripped = strip_ansi(summary);
    let fallback = "image ("@ + fallback_mime + ")"@;
    match find(stripped, "added image "@) {
        Some(k) => {
            let t = trim(stripped.skip(k + "added image "@.len()));
            if t.len() > 0 {
                t
            } else {
                fallback
            }
        },
        None => fallback,
    }
}

fn strip_ansi_exec(s: &[char]) -> (r: Vec<char>)
    ensures
        r@ == strip_ansi(s@),
{
    let mut out: Vec<char> = Vec::new();
    let mut in_escape = false;
    let mut i: usize = 0;
    assert(s@.take(0) =~= Seq::<char>::empty());
    while i < s.len()
        invariant
            i <= s@.len(),
            (out@, in_escape) == strip_ansi_state(s@.take(i as int)),
        decreases s.len() - i,
    {
        let c = s[i];
        assert(s@.take(i + 1).drop_last() =~= s@.take(i as int));
        assert(s@.take(i + 1).last() == c);
        if c == '\x1b' {
            in_escape = true;
        } else if in_escape {
            if ('a' <= c && c <= 'z') || ('A' <= c && c <= 'Z') {
                in_escape = false;
            }
        } else {
            out.push(c);
        }
        i = i + 1;
    }
    assert(s@.take(s.len() as int) =~= s@);
    out
}

/// Extracts the readable label from an added image's summary.
pub fn extract_image_label(summary: &str, fallback_mime: &str) -> (r: String)
    ensures
        r@ == image_label(summary@, fallback_mime@),
{
    let s = chars_of(summary);
    let stripped = strip_ansi_exec(s.as_slice());
    let mut fallback: Vec<char> = Vec::new();
    extend_str(&mut fallback, "image (");
    extend_str(&mut fallback, fallback_mime);
    extend_str(&mut fallback, ")");
    match find_str(stripped.as_slice(), "added image ") {
        Some(k) => {
            proof {
                reveal_strlit("added image ");
            }
            let n = stripped.len();
            assert(k + 12 <= n) by {
                crate::text::lemma_find_from(stripped@, "added image "@, 0);
            }
            let after = slice_vec(stripped.as_slice(), k + 12, n);
            assert(after@ =~= stripped@.skip(k + "added image "@.len()));
            let t = trim_vec(after.as_slice());
            if t.len() > 0 {
                string_of(t.as_slice())
            } else {
                string_of(fallback.as_slice())
            }
        },
        None => string_of(fallback.as_slice()),
    }
}

// ───────────────────────────── `/add` content blocks ─────────────────────────────

/// What `/add` read for one argument: a text file's content, or an image.
#[derive(Debug, Clone)]
pub enum AddedFile {
    Text { summary: String, content: String },
    Image { summary: String, data: String, mime_type: String },
}

/// One block of a multi-part message.
#[derive(Debug, Clone, PartialEq)]
pub enum ContentBlock {
    Text { text: String },
    Image { data: String, mime_type: String },
}

/// The view of a content block.
pub enum ContentBlockV {
    Text { text: Seq<char> },
    Image { data: Seq<char>, mime_type: Seq<char> },
}

impl ContentBlock {
    pub open spec fn view(&self) -> ContentBlockV {
        match self {
            ContentBlock::Text { text } => ContentBlockV::Text { text: text@ },
            ContentBlock::Image { data, mime_type } => ContentBlockV::Image {
                data: data@,
                mime_type: mime_type@,
            },
        }
    }
}

/// The views of a list of content blocks.
pub open spec fn block_views(v: Seq<ContentBlock>) -> Seq<ContentBlockV> {
    v.map_values(|b: ContentBlock| b@)
}

/// The introduction sent before images when no text file came with them.
pub open spec fn images_intro() -> Seq<char> {
    "The user is sharing the following image(s) for you to analyze:"@
}

/// The blocks one added file contributes: a text file its content; an image a label
/// (`[Image: <label>]`) and then the image itself.
pub open spec fn file_blocks(f: AddedFile) -> Seq<ContentBlockV> {
    match f {
        AddedFile::Text { content, .. } => seq![ContentBlockV::Text { text: content@ }],
        AddedFile::Image { summary, data, mime_type } => seq![
            ContentBlockV::Text { text: "[Image: "@ + image_label(summary@, mime_type@) + "]"@ },
            ContentBlockV::Image { data: data@, mime_type: mime_type@ },
        ],
    }
}

/// The blocks of the added files, in order.
pub open spec fn files_blocks(fs: Seq<AddedFile>) -> Seq<ContentBlockV>
    decreases fs.len(),
{
    if fs.len() == 0 {
        Seq::empty()
    } else {
        files_blocks(fs.drop_last()) + file_blocks(fs.last())
    }
}

/// Whether any added file is a text file.
pub open spec fn any_text_file(fs: Seq<AddedFile>) -> bool {
    exists|i: int| 0 <= i < fs.len() && fs[i] is Text
}

/// The message blocks for what `/add` read: nothing for nothing; otherwise, when every
/// file is an image, an introduction first, then each file's blocks in order.
pub open spec fn add_blocks(fs: Seq<AddedFile>) -> Seq<ContentBlockV> {
    if fs.len() == 0 {
        Seq::empty()
    } else if any_text_file(fs) {
        files_blocks(fs)
    } else {
        seq![ContentBlockV::Text { text: images_intro() }] + files_blocks(fs)
    }
}

/// Builds the message blocks for what `/add` read.
pub fn build_add_content_blocks(results: &[AddedFile]) -> (r: Vec<ContentBlock>)
    ensures
        block_views(r@) == add_blocks(results@),
{
    let mut blocks: Vec<ContentBlock> = Vec::new();
    if results.len() == 0 {
        assert(block_views(blocks@) =~= Seq::<ContentBlockV>::empty());
        return blocks;
    }
    let mut has_text = false;
    let mut k: usize = 0;
    while k < results.len()
        invariant
            k <= results@.len(),
            has_text <==> exists|i: int| 0 <= i < k && results@[i] is Text,
        decreases results.len() - k,
    {
        if let AddedFile::Text { .. } = &results[k] {
            has_text = true;
        }
        k = k + 1;
    }
    if !has_text {
        blocks.push(
            ContentBlock::Text {
                text: "The user is sharing the following image(s) for you to analyze:".to_owned(),
            },
        );
    }
    let ghost intro = block_views(blocks@);
    let mut i: usize = 0;
    assert(results@.take(0) =~= Seq::<AddedFile>::empty());
    while i < results.len()
        invariant
            i <= results@.len(),
            block_views(blocks@) == intro + files_blocks(results@.take(i as int)),
        decreases results.len() - i,
    {
        let ghost before = block_views(blocks@);
        assert(results@.take(i + 1).drop_last() =~= results@.take(i as int));
        match &results[i] {
            AddedFile::Text { content, .. } => {
                blocks.push(ContentBlock::Text { text: content.clone() });
            },
            AddedFile::Image { summary, data, mime_type } => {
                let label = extract_image_label(summary.as_str(), mime_type.as_str());
                let mut t: Vec<char> = Vec::new();
                extend_str(&mut t, "[Image: ");
                extend_str(&mut t, label.as_str());
                extend_str(&mut t, "]");
                blocks.push(ContentBlock::Text { text: string_of(t.as_slice()) });
                blocks.push(ContentBlock::Image { data: data.clone(), mime_type: mime_type.clone() });
            },
        }
        assert(block_views(blocks@) =~= before + file_blocks(results@[i as int]));
        i = i + 1;
    }
    assert(results@.take(results.len() as int) =~= results@);
    blocks
}


// ───────────────────────────── completion ─────────────────────────────

/// The index of the last whitespace character of `s`.
pub open spec fn last_ws(s: Seq<char>) -> Option<int>
    decreases s.len(),
{
    if s.len() == 0 {
        None
    } else if is_ws(s.last()) {
        Some(s.len() - 1)
    } else {
        last_ws(s.drop_last())
    }
}

/// What the text before the cursor asks to complete. Positions are byte offsets.
#[derive(Debug, Clone, PartialEq)]
pub enum CompletionTarget {
    /// A slash command name: the text so far is `/` and no space.
    Command,
    /// The first argument of slash command `command`, typed so far as `arg`, which
    /// starts at `start`. When the command offers no completion for it, complete
    /// [`path_target`] instead.
    Argument { command: String, arg: String, start: usize },
    /// A file path: the last whitespace-delimited word, which starts at `start`.
    Path { word: String, start: usize },
    /// Nothing: the text so far is empty or ends in whitespace.
    Nothing,
}

/// The view of a completion target.
pub enum CompletionTargetV {
    Command,
    Argument { command: Seq<char>, arg: Seq<char>, start: nat },
    Path { word: Seq<char>, start: nat },
    Nothing,
}

impl CompletionTarget {
    pub open spec fn view(&self) -> CompletionTargetV {
        match self {
            CompletionTarget::Command => CompletionTargetV::Command,
            CompletionTarget::Argument { command, arg, start } => CompletionTargetV::Argument {
                command: command@,
                arg: arg@,
                start: *start as nat,
            },
            CompletionTarget::Path { word, start } => CompletionTargetV::Path {
                word: word@,
                start: *start as nat,
            },
            CompletionTarget::Nothing => CompletionTargetV::Nothing,
        }
    }
}

/// The last whitespace-delimited word, or nothing when that word is empty.
pub open spec fn path_target_of(p: Seq<char>) -> CompletionTargetV {
    let from = match last_ws(p) {
        Some(k) => k + 1,
        None => 0,
    };
    if from >= p.len() {
        CompletionTargetV::Nothing
    } else {
        CompletionTargetV::Path { word: p.skip(from), start: byte_len(p.take(from)) }
    }
}

/// A slash command while no space is typed; its first argument while exactly one space
/// is; otherwise the last word.
pub open spec fn target_of(p: Seq<char>) -> CompletionTargetV {
    if p.len() > 0 && p[0] == '/' {
        match find_char_from(p, ' ', 0) {
            None => CompletionTargetV::Command,
            Some(j) => if find_char_from(p, ' ', j + 1) is None {
                CompletionTargetV::Argument {
                    command: p.take(j),
                    arg: p.skip(j + 1),
                    start: byte_len(p.take(j)) + 1,
                }
            } else {
                path_target_of(p)
            },
        }
    } else {
        path_target_of(p)
    }
}

/// Cutting the text after its last whitespace character lands on a character boundary
/// only when that character is one byte long.
pub open spec fn word_cut_is_boundary(p: Seq<char>) -> bool {
    last_ws(p) matches Some(k) ==> width(p[k]) == 1
}

fn last_ws_exec(p: &[char]) -> (r: Option<usize>)
    ensures
        r matches Some(k) ==> last_ws(p@) == Some(k as int) && k < p@.len(),
        r is None ==> last_ws(p@) is None,
{
    let mut i = p.len();
    assert(p@.take(i as int) =~= p@);
    while i > 0
        invariant
            i <= p@.len(),
            last_ws(p@) == last_ws(p@.take(i as int)),
        decreases i,
    {
        assert(p@.take(i as int).drop_last() =~= p@.take(i - 1));
        if is_whitespace(p[i - 1]) {
            return Some(i - 1);
        }
        i = i - 1;
    }
    None
}

/// The last whitespace-delimited word of the text before the cursor, for file-path
/// completion.
pub fn path_target(prefix: &str) -> (r: CompletionTarget)
    requires
        4 * prefix@.len() <= usize::MAX,
        word_cut_is_boundary(prefix@),
    ensures
        r@ == path_target_of(prefix@),
{
    let p = chars_of(prefix);
    let from = match last_ws_exec(p.as_slice()) {
        Some(k) => k + 1,
        None => 0,
    };
    if from >= p.len() {
        return CompletionTarget::Nothing;
    }
    let n = p.len();
    let head = slice_vec(p.as_slice(), 0, from);
    let word = slice_vec(p.as_slice(), from, n);
    assert(head@ =~= p@.take(from as int));
    assert(word@ =~= p@.skip(from as int));
    let start = byte_len_exec(head.as_slice());
    CompletionTarget::Path { word: string_of(word.as_slice()), start }
}

/// What the text before the cursor asks to complete (see [`target_of`]).
pub fn completion_target(prefix: &str) -> (r: CompletionTarget)
    requires
        4 * prefix@.len() <= usize::MAX,
        (target_of(prefix@) is Path || target_of(prefix@) is Nothing) ==> word_cut_is_boundary(
            prefix@,
        ),
    ensures
        r@ == target_of(prefix@),
{
    let p = chars_of(prefix);
    if p.len() > 0 && p[0] == '/' {
        match find_char(p.as_slice(), ' ', 0) {
            None => {
                return CompletionTarget::Command;
            },
            Some(j) => {
                proof {
                    crate::text::lemma_find_char_from(p@, ' ', 0);
                }
                if find_char(p.as_slice(), ' ', j + 1).is_none() {
                    let n = p.len();
                    let command = slice_vec(p.as_slice(), 0, j);
                    let arg = slice_vec(p.as_slice(), j + 1, n);
                    assert(command@ =~= p@.take(j as int));
                    assert(arg@ =~= p@.skip(j + 1));
                    proof {
                        crate::text::lemma_byte_len_ge_len(command@);
                    }
                    let start = byte_len_exec(command.as_slice()) + 1;
                    return CompletionTarget::Argument {
                        command: string_of(command.as_slice()),
                        arg: string_of(arg.as_slice()),
                        start,
                    };
                }
            },
        }
    }
    path_target(prefix)
}

/// The names in `cs` that start with `p`, in order.
pub open spec fn with_prefix(cs: Seq<Seq<char>>, p: Seq<char>) -> Seq<Seq<char>>
    decreases cs.len(),
{
    if cs.len() == 0 {
        Seq::empty()
    } else if starts_with(cs.last(), p) {
        with_prefix(cs.drop_last(), p).push(cs.last())
    } else {
        with_prefix(cs.drop_last(), p)
    }
}

/// The views of a list of string slices.
pub open spec fn slice_views(v: Seq<&str>) -> Seq<Seq<char>> {
    v.map_values(|s: &str| s@)
}

/// The views of a list of strings.
pub open spec fn string_views(v: Seq<String>) -> Seq<Seq<char>> {
    v.map_values(|s: String| s@)
}

/// The slash commands that complete what was typed, in the order they are listed.
pub fn commands_with_prefix(prefix: &str, commands: &[&str]) -> (r: Vec<String>)
    ensures
        string_views(r@) == with_prefix(slice_views(commands@), prefix@),
{
    let p = chars_of(prefix);
    let mut r: Vec<String> = Vec::new();
    let mut i: usize = 0;
    assert(slice_views(commands@).take(0) =~= Seq::<Seq<char>>::empty());
    while i < commands.len()
        invariant
            i <= commands@.len(),
            string_views(r@) == with_prefix(slice_views(commands@).take(i as int), p@),
        decreases commands.len() - i,
    {
        let ghost before = string_views(r@);
        let c = chars_of(commands[i]);
        assert(slice_views(commands@).take(i + 1).drop_last() =~= slice_views(commands@).take(
            i as int,
        ));
        assert(slice_views(commands@).take(i + 1).last() == commands@[i as int]@);
        if crate::text::match_at(c.as_slice(), 0, p.as_slice()) {
            r.push(commands[i].to_owned());
            assert(string_views(r@) =~= before.push(commands@[i as int]@));
        } else {
            assert(string_views(r@) =~= before);
        }
        i = i + 1;
    }
    assert(slice_views(commands@).take(commands.len() as int) =~= slice_views(commands@));
    r
}

/// The candidate a directory entry gives: the directory prefix, its name, and a `/`
/// after a directory's name.
pub open spec fn entry_candidate(dir_prefix: Seq<char>, name: Seq<char>, is_dir: bool) -> Seq<char> {
    dir_prefix + name + if is_dir {
        seq!['/']
    } else {
        Seq::empty()
    }
}

/// The candidates of the entries whose name starts with `file_prefix`, in entry order.
pub open spec fn entry_candidates(
    dir_prefix: Seq<char>,
    file_prefix: Seq<char>,
    entries: Seq<(Seq<char>, bool)>,
) -> Seq<Seq<char>>
    decreases entries.len(),
{
    if entries.len() == 0 {
        Seq::empty()
    } else {
        let rest = entry_candidates(dir_prefix, file_prefix, entries.drop_last());
        let (name, is_dir) = entries.last();
        if starts_with(name, file_prefix) {
            rest.push(entry_candidate(dir_prefix, name, is_dir))
        } else {
            rest
        }
    }
}

/// In code-point order (equal neighbours allowed).
pub open spec fn sorted_names(s: Seq<Seq<char>>) -> bool {
    forall|i: int, j: int| 0 <= i < j < s.len() ==> !key_less(#[trigger] s[j], #[trigger] s[i])
}

/// The views of directory entries: name and whether it is a directory.
pub open spec fn entry_views(v: Seq<(String, bool)>) -> Seq<(Seq<char>, bool)> {
    v.map_values(|e: (String, bool)| (e.0@, e.1))
}

/// Inserts `x` into the sorted `r`, after every name not greater than it.
fn insert_sorted(r: &mut Vec<Vec<char>>, x: Vec<char>)
    requires
        sorted_names(crate::text::views(old(r)@)),
    ensures
        sorted_names(crate::text::views(final(r)@)),
        crate::text::views(final(r)@).to_multiset() == crate::text::views(old(r)@).to_multiset().insert(
            x@,
        ),
{
    let ghost old_v = crate::text::views(r@);
    let mut p: usize = 0;
    while p < r.len() && !key_less_exec(x.as_slice(), r[p].as_slice())
        invariant
            p <= r@.len(),
            crate::text::views(r@) == old_v,
            sorted_names(old_v),
            forall|q: int| 0 <= q < p ==> !key_less(x@, #[trigger] old_v[q]),
        decreases r.len() - p,
    {
        p = p + 1;
    }
    proof {
        if p < r@.len() {
            assert(key_less(x@, old_v[p as int]));
        }
    }
    r.insert(p, x);
    let ghost new_v = crate::text::views(r@);
    assert(new_v =~= old_v.insert(p as int, x@));
    assert forall|i: int, j: int| 0 <= i < j < new_v.len() implies !key_less(
        #[trigger] new_v[j],
        #[trigger] new_v[i],
    ) by {
        if i < p && j == p {
            assert(!key_less(x@, old_v[i]));
        } else if i == p && j > p {
            let y = old_v[j - 1];
            assert(key_less(x@, old_v[p as int]));
            if key_less(y, x@) {
                if j - 1 > p {
                    assert(!key_less(old_v[j - 1], old_v[p as int]));
                    lemma_key_less_transitive(y, x@, old_v[p as int]);
                } else {
                    crate::text::lemma_key_less_asymmetric(x@, y);
                }
            }
        } else if i < p && j > p {
            assert(!key_less(old_v[j - 1], old_v[i]));
        } else if j < p {
            assert(!key_less(old_v[j], old_v[i]));
        } else {
            assert(!key_less(old_v[j - 1], old_v[i - 1]));
        }
    }
    proof {
        assert(new_v.remove(p as int) =~= old_v);
        broadcast use vstd::seq_lib::group_to_multiset_ensures;
        assert(new_v.remove(p as int).to_multiset() =~= new_v.to_multiset().remove(x@));
        assert(new_v.contains(x@)) by {
            assert(new_v[p as int] == x@);
        }
        assert(new_v.to_multiset().count(x@) > 0);
        assert(new_v.to_multiset() =~= new_v.to_multiset().remove(x@).insert(x@));
    }
}

/// The file-path completions in a directory: for each entry whose name starts with
/// `file_prefix`, the directory prefix and the name (with `/` after a directory), sorted.
pub fn file_candidates(dir_prefix: &str, file_prefix: &str, entries: &[(String, bool)]) -> (r: Vec<
    String,
>)
    ensures
        sorted_names(string_views(r@)),
        string_views(r@).to_multiset() == entry_candidates(
            dir_prefix@,
            file_prefix@,
            entry_views(entries@),
        ).to_multiset(),
{
    let d = chars_of(dir_prefix);
    let fp = chars_of(file_prefix);
    let mut sorted: Vec<Vec<char>> = Vec::new();
    let mut i: usize = 0;
    let ghost ev = entry_views(entries@);
    assert(ev.take(0) =~= Seq::<(Seq<char>, bool)>::empty());
    assert(crate::text::views(sorted@).to_multiset() =~= Seq::<Seq<char>>::empty().to_multiset()) by {
        broadcast use vstd::seq_lib::group_to_multiset_ensures;
    }
    while i < entries.len()
        invariant
            i <= entries@.len(),
            ev == entry_views(entries@),
            sorted_names(crate::text::views(sorted@)),
            crate::text::views(sorted@).to_multiset() == entry_candidates(d@, fp@, ev.take(i as int)).to_multiset(),
        decreases entries.len() - i,
    {
        let name = chars_of(entries[i].0.as_str());
        assert(ev.take(i + 1).drop_last() =~= ev.take(i as int));
        assert(ev.take(i + 1).last() == ev[i as int]);
        if crate::text::match_at(name.as_slice(), 0, fp.as_slice()) {
            let mut c = crate::text::copy_chars(d.as_slice());
            extend(&mut c, name.as_slice());
            if entries[i].1 {
                c.push('/');
            }
            assert(c@ =~= entry_candidate(d@, name@, entries@[i as int].1));
            proof {
                broadcast use vstd::seq_lib::group_to_multiset_ensures;
            }
            insert_sorted(&mut sorted, c);
        }
        i = i + 1;
    }
    assert(ev.take(entries.len() as int) =~= ev);
    let mut r: Vec<String> = Vec::new();
    let mut k: usize = 0;
    while k < sorted.len()
        invariant
            k <= sorted@.len(),
            string_views(r@) == crate::text::views(sorted@).take(k as int),
        decreases sorted.len() - k,
    {
        let ghost before = string_views(r@);
        r.push(string_of(sorted[k].as_slice()));
        assert(string_views(r@) =~= before.push(sorted@[k as int]@));
        assert(crate::text::views(sorted@).take(k + 1) =~= crate::text::views(sorted@).take(
            k as int,
        ).push(sorted@[k as int]@));
        k = k + 1;
    }
    assert(crate::text::views(sorted@).take(sorted.len() as int) =~= crate::text::views(sorted@));
    r
}

} // verus!
