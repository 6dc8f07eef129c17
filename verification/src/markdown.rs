//! Markdown block extraction.
//!
//! A document is first turned into a stream of structural events (the one
//! unverified step, delegated to pulldown-cmark), then a verified single-pass
//! scanner walks that stream, tracking the enclosing heading stack and
//! pending `runme:` directives, and emits `CodeBlock` records in discovery
//! order.

use crate::text::block_id_spec;
use crate::text::chars_to_string;
use crate::text::clone_chars;
use crate::text::ends_with_chars;
use crate::text::ends_with_spec;
use crate::text::eq_chars;
use crate::text::lower_chars;
use crate::text::lower_spec;
use crate::text::skip_chars;
use crate::text::split_once_eq;
use crate::text::split_once_eq_spec;
use crate::text::split_ws_chars;
use crate::text::split_ws_spec;
use crate::text::starts_with_chars;
use crate::text::starts_with_spec;
use crate::text::str_to_chars;
use crate::text::take_chars;
use crate::text::trim_chars;
use crate::text::trim_spec;
use pulldown_cmark::CodeBlockKind as PdCodeBlockKind;
use pulldown_cmark::Event as PdEvent;
use pulldown_cmark::Options as PdOptions;
use pulldown_cmark::Parser as PdParser;
use pulldown_cmark::Tag as PdTag;
use pulldown_cmark::TagEnd as PdTagEnd;
use vstd::prelude::*;

verus! {

/// One structural markdown event, reduced to the plain values the block
/// scanner reads: heading boundaries with their level, inline text and code
/// fragments, raw HTML, and code-block boundaries with the fence info string.
pub enum MdEvent {
    HeadingStart(u32),
    HeadingEnd(u32),
    Text(String),
    Code(String),
    Html(String),
    FenceStart(String),
    IndentStart,
    BlockEnd,
    Other,
}

/// The spec-level counterpart of `MdEvent`.
pub enum MdEventAbs {
    HeadingStart(u32),
    HeadingEnd(u32),
    Text(Seq<char>),
    Code(Seq<char>),
    Html(Seq<char>),
    FenceStart(Seq<char>),
    IndentStart,
    BlockEnd,
    Other,
}

impl View for MdEvent {
    type V = MdEventAbs;

    open spec fn view(&self) -> MdEventAbs {
        match self {
            MdEvent::HeadingStart(l) => MdEventAbs::HeadingStart(*l),
            MdEvent::HeadingEnd(l) => MdEventAbs::HeadingEnd(*l),
            MdEvent::Text(t) => MdEventAbs::Text(t@),
            MdEvent::Code(t) => MdEventAbs::Code(t@),
            MdEvent::Html(t) => MdEventAbs::Html(t@),
            MdEvent::FenceStart(t) => MdEventAbs::FenceStart(t@),
            MdEvent::IndentStart => MdEventAbs::IndentStart,
            MdEvent::BlockEnd => MdEventAbs::BlockEnd,
            MdEvent::Other => MdEventAbs::Other,
        }
    }
}

/// The views of an event vector.
pub open spec fn events_abs(v: Seq<MdEvent>) -> Seq<MdEventAbs> {
    v.map_values(|e: MdEvent| e@)
}

/// The structural event stream that markdown parsing assigns to a document;
/// a function of the document text alone.
pub uninterp spec fn md_events(doc: Seq<char>) -> Seq<MdEventAbs>;

/// Relies on `pulldown_cmark::Parser::new_ext` with all extensions enabled:
/// yields the document's structural events in order, a deterministic
/// function of the text; the match merely renames the variants read here.
#[verifier::external_body]
pub fn parse_events(doc: &str) -> (r: Vec<MdEvent>)
    ensures
        events_abs(r@) == md_events(doc@),
{
    PdParser::new_ext(doc, PdOptions::all()).map(|e| match e {
        PdEvent::Start(PdTag::Heading { level, .. }) => MdEvent::HeadingStart(level as u32),
        PdEvent::End(PdTagEnd::Heading(level)) => MdEvent::HeadingEnd(level as u32),
        PdEvent::Text(t) => MdEvent::Text(t.into_string()),
        PdEvent::Code(t) => MdEvent::Code(t.into_string()),
        PdEvent::Html(t) => MdEvent::Html(t.into_string()),
        PdEvent::Start(PdTag::CodeBlock(PdCodeBlockKind::Fenced(info))) => MdEvent::FenceStart(info.into_string()),
        PdEvent::Start(PdTag::CodeBlock(PdCodeBlockKind::Indented)) => MdEvent::IndentStart,
        PdEvent::End(PdTagEnd::CodeBlock) => MdEvent::BlockEnd,
        _ => MdEvent::Other,
    }).collect()
}

/// The view of an optional character vector.
pub open spec fn ov(o: Option<Vec<char>>) -> Option<Seq<char>> {
    match o {
        Some(v) => Some(v@),
        None => None,
    }
}

/// The view of an optional string.
pub open spec fn os(o: Option<String>) -> Option<Seq<char>> {
    match o {
        Some(s) => Some(s@),
        None => None,
    }
}

/// The views of a vector of strings.
pub open spec fn strings_abs(v: Seq<String>) -> Seq<Seq<char>> {
    v.map_values(|s: String| s@)
}

/// A `runme:` directive found in an HTML comment: an ignore/skip marker, or
/// a name for the next block (absent when the directive carried no text).
pub enum Directive {
    Ignore,
    Name(Option<Vec<char>>),
}

/// The spec-level counterpart of `Directive`.
pub enum DirectiveAbs {
    Ignore,
    Name(Option<Seq<char>>),
}

/// `s` with every leading `<!--` removed.
pub open spec fn strip_open_spec(s: Seq<char>) -> Seq<char>
    decreases s.len(),
    via strip_open_spec_dec
{
    if starts_with_spec(s, "<!--"@) {
        strip_open_spec(s.skip("<!--"@.len() as int))
    } else {
        s
    }
}

#[via_fn]
proof fn strip_open_spec_dec(s: Seq<char>) {
    reveal_strlit("<!--");
}

/// `s` with every trailing `-->` removed.
pub open spec fn strip_close_spec(s: Seq<char>) -> Seq<char>
    decreases s.len(),
    via strip_close_spec_dec
{
    if ends_with_spec(s, "-->"@) {
        strip_close_spec(s.take(s.len() - "-->"@.len()))
    } else {
        s
    }
}

#[via_fn]
proof fn strip_close_spec_dec(s: Seq<char>) {
    reveal_strlit("-->");
}

/// The directive carried by a raw HTML fragment: the fragment must be a
/// whole HTML comment; its body, case-insensitively, either starts with
/// `runme:ignore` or `runme:skip` (an ignore marker) or with `runme:name`
/// (naming the next block with the trimmed rest of the body).
pub open spec fn directive_spec(html: Seq<char>) -> Option<DirectiveAbs> {
    let raw = trim_spec(html);
    if !(starts_with_spec(raw, "<!--"@) && ends_with_spec(raw, "-->"@)) {
        None
    } else {
        let inner = trim_spec(strip_close_spec(strip_open_spec(raw)));
        let low = lower_spec(inner);
        if starts_with_spec(low, "runme:ignore"@) || starts_with_spec(low, "runme:skip"@) {
            Some(DirectiveAbs::Ignore)
        } else if starts_with_spec(low, "runme:name"@) {
            let name = trim_spec(inner.skip("runme:name"@.len() as int));
            Some(DirectiveAbs::Name(if name.len() > 0 { Some(name) } else { None }))
        } else {
            None
        }
    }
}

/// Parses a `runme:` directive out of a raw HTML fragment, per
/// `directive_spec`.
fn parse_directive(html: &Vec<char>) -> (r: Option<Directive>)
    ensures
        match r {
            None => directive_spec(html@) is None,
            Some(Directive::Ignore) => directive_spec(html@) == Some(DirectiveAbs::Ignore),
            Some(Directive::Name(o)) => directive_spec(html@) == Some(DirectiveAbs::Name(ov(o))),
        },
{
    let open = str_to_chars("<!--");
    let close = str_to_chars("-->");
    let raw = trim_chars(html);
    if !(starts_with_chars(&raw, &open) && ends_with_chars(&raw, &close)) {
        return None;
    }
    proof {
        reveal_strlit("<!--");
        reveal_strlit("-->");
    }
    let mut s = raw;
    let ghost orig = s@;
    while starts_with_chars(&s, &open)
        invariant
            open@ == "<!--"@,
            open@.len() == 4,
            strip_open_spec(orig) == strip_open_spec(s@),
        decreases s@.len(),
    {
        s = skip_chars(&s, open.len());
    }
    assert(strip_open_spec(s@) == s@);
    let mut t = s;
    let ghost mid = t@;
    while ends_with_chars(&t, &close)
        invariant
            close@ == "-->"@,
            close@.len() == 3,
            strip_close_spec(mid) == strip_close_spec(t@),
        decreases t@.len(),
    {
        t = take_chars(&t, t.len() - close.len());
    }
    assert(strip_close_spec(t@) == t@);
    let inner = trim_chars(&t);
    let low = lower_chars(&inner);
    let pat_ignore = str_to_chars("runme:ignore");
    let pat_skip = str_to_chars("runme:skip");
    let pat_name = str_to_chars("runme:name");
    if starts_with_chars(&low, &pat_ignore) || starts_with_chars(&low, &pat_skip) {
        Some(Directive::Ignore)
    } else if starts_with_chars(&low, &pat_name) {
        assert(low@.len() == inner@.len());
        let rest = skip_chars(&inner, pat_name.len());
        let name = trim_chars(&rest);
        if name.len() > 0 {
            Some(Directive::Name(Some(name)))
        } else {
            Some(Directive::Name(None))
        }
    } else {
        None
    }
}

/// Metadata parsed out of a fence info string.
pub struct FenceMeta {
    pub language: Option<Vec<char>>,
    pub name: Option<Vec<char>>,
    pub ignore: bool,
}

/// The spec-level counterpart of `FenceMeta`.
pub struct FenceAbs {
    pub language: Option<Seq<char>>,
    pub name: Option<Seq<char>>,
    pub ignore: bool,
}

impl View for FenceMeta {
    type V = FenceAbs;

    open spec fn view(&self) -> FenceAbs {
        FenceAbs { language: ov(self.language), name: ov(self.name), ignore: self.ignore }
    }
}

pub open spec fn empty_fence_abs() -> FenceAbs {
    FenceAbs { language: None, name: None, ignore: false }
}

/// How one info-string token updates the fence metadata: `runme:ignore` and
/// `runme:skip` (case-insensitive) set the ignore flag; `runme:name=<v>`
/// with a non-empty value names the block; any other `key=value` token is
/// discarded; the first remaining token is the language, lowercased.
pub open spec fn fence_token_step(acc: FenceAbs, tok: Seq<char>) -> FenceAbs {
    let low = lower_spec(tok);
    if low == "runme:ignore"@ || low == "runme:skip"@ {
        FenceAbs { ignore: true, ..acc }
    } else if split_once_eq_spec(tok) is Some {
        let kv = split_once_eq_spec(tok)->Some_0;
        if lower_spec(kv.0) == "runme:name"@ && kv.1.len() > 0 {
            FenceAbs { name: Some(kv.1), ..acc }
        } else {
            acc
        }
    } else if acc.language is None {
        FenceAbs { language: Some(low), ..acc }
    } else {
        acc
    }
}

pub open spec fn fence_fold(toks: Seq<Seq<char>>, acc: FenceAbs) -> FenceAbs
    decreases toks.len(),
{
    if toks.len() == 0 {
        acc
    } else {
        fence_fold(toks.drop_first(), fence_token_step(acc, toks[0]))
    }
}

/// The metadata of a fence info string: its whitespace-separated tokens
/// folded over `fence_token_step`.
pub open spec fn fence_meta_spec(info: Seq<char>) -> FenceAbs {
    fence_fold(split_ws_spec(info), empty_fence_abs())
}

/// Parses a fence info string, per `fence_meta_spec`.
fn parse_fence_meta(info: &Vec<char>) -> (r: FenceMeta)
    ensures
        r@ == fence_meta_spec(info@),
{
    let toks = split_ws_chars(info);
    let ghost all = toks.deep_view();
    let mut acc = FenceMeta { language: None, name: None, ignore: false };
    let pat_ignore = str_to_chars("runme:ignore");
    let pat_skip = str_to_chars("runme:skip");
    let pat_name = str_to_chars("runme:name");
    let mut i: usize = 0;
    proof {
        assert(all.skip(0) =~= all);
    }
    while i < toks.len()
        invariant
            0 <= i <= toks@.len(),
            all == toks.deep_view(),
            pat_ignore@ == "runme:ignore"@,
            pat_skip@ == "runme:skip"@,
            pat_name@ == "runme:name"@,
            fence_fold(all, empty_fence_abs()) == fence_fold(all.skip(i as int), acc@),
        decreases toks@.len() - i,
    {
        let ghost pre = acc@;
        let tok = &toks[i];
        assert(all[i as int] =~= tok@);
        let low = lower_chars(tok);
        if eq_chars(&low, &pat_ignore) || eq_chars(&low, &pat_skip) {
            acc.ignore = true;
        } else if let Some((key, value)) = split_once_eq(tok) {
            let key_low = lower_chars(&key);
            if eq_chars(&key_low, &pat_name) && value.len() > 0 {
                acc.name = Some(value);
            }
        } else if acc.language.is_none() {
            acc.language = Some(low);
        }
        assert(acc@ == fence_token_step(pre, all[i as int]));
        proof {
            assert(all.skip(i as int).drop_first() =~= all.skip(i + 1));
            assert(all.skip(i as int)[0] == all[i as int]);
        }
        i += 1;
    }
    proof {
        assert(all.skip(toks@.len() as int) =~= Seq::<Seq<char>>::empty());
    }
    acc
}

/// One entry of the heading-context stack.
pub struct HeadingEntry {
    pub level: u32,
    pub title: Vec<char>,
}

/// The spec-level counterpart of `HeadingEntry`.
pub struct HeadingAbs {
    pub level: int,
    pub title: Seq<char>,
}

impl View for HeadingEntry {
    type V = HeadingAbs;

    open spec fn view(&self) -> HeadingAbs {
        HeadingAbs { level: self.level as int, title: self.title@ }
    }
}

pub open spec fn headings_abs(hs: Seq<HeadingEntry>) -> Seq<HeadingAbs> {
    hs.map_values(|h: HeadingEntry| h@)
}

/// Accumulates the inline fragments of one heading into its title.
pub struct HeadingBuilder {
    pub buffer: Vec<char>,
}

/// A fragment extends a builder's buffer, space-separated from what is
/// already there.
pub open spec fn builder_push_spec(buffer: Seq<char>, fragment: Seq<char>) -> Seq<char> {
    if buffer.len() > 0 {
        buffer + seq![' '] + fragment
    } else {
        fragment
    }
}

impl HeadingBuilder {
    pub fn new() -> (r: HeadingBuilder)
        ensures
            r.buffer@ == Seq::<char>::empty(),
    {
        HeadingBuilder { buffer: Vec::new() }
    }

    pub fn push(&mut self, fragment: &Vec<char>)
        ensures
            final(self).buffer@ == builder_push_spec(old(self).buffer@, fragment@),
    {
        if self.buffer.len() > 0 {
            self.buffer.push(' ');
            crate::text::append_chars(&mut self.buffer, fragment);
            assert(self.buffer@ =~= builder_push_spec(old(self).buffer@, fragment@));
        } else {
            crate::text::append_chars(&mut self.buffer, fragment);
            assert(self.buffer@ =~= fragment@);
        }
    }
}

/// Holds of stack entries shallower than `level`.
pub open spec fn level_below(level: int) -> spec_fn(HeadingAbs) -> bool {
    |h: HeadingAbs| h.level < level
}

/// Committing a heading of level `level` prunes every entry of equal or
/// deeper level, then pushes the new heading: siblings replace each other,
/// so the stack is always the path of enclosing sections.
pub open spec fn commit_spec(stack: Seq<HeadingAbs>, title: Seq<char>, level: int) -> Seq<
    HeadingAbs,
> {
    stack.filter(level_below(level)).push(HeadingAbs { level: level, title: trim_spec(title) })
}

proof fn lemma_filter_take_step(s: Seq<HeadingAbs>, i: int, level: int)
    requires
        0 <= i < s.len(),
    ensures
        s.take(i + 1).filter(level_below(level)) == if level_below(level)(s[i]) {
            s.take(i).filter(level_below(level)).push(s[i])
        } else {
            s.take(i).filter(level_below(level))
        },
{
    reveal_with_fuel(Seq::filter, 2);
    assert(s.take(i + 1).drop_last() =~= s.take(i));
    assert(s.take(i + 1).last() == s[i]);
    assert(s.take(i + 1).len() == i + 1);
}

/// Replaces the stack's pruned tail with the freshly built heading, per
/// `commit_spec`.
pub fn commit_heading(stack: &mut Vec<HeadingEntry>, builder: &HeadingBuilder, level: u32)
    ensures
        headings_abs(final(stack)@) == commit_spec(
            headings_abs(old(stack)@),
            builder.buffer@,
            level as int,
        ),
{
    let ghost orig = headings_abs(old(stack)@);
    let mut kept: Vec<HeadingEntry> = Vec::new();
    let mut i: usize = 0;
    proof {
        reveal_with_fuel(Seq::filter, 1);
        assert(orig.take(0) =~= Seq::<HeadingAbs>::empty());
        assert(headings_abs(kept@) =~= Seq::<HeadingAbs>::empty());
        assert(Seq::<HeadingAbs>::empty().filter(level_below(level as int)) =~= Seq::<
            HeadingAbs,
        >::empty());
    }
    while i < stack.len()
        invariant
            0 <= i <= stack@.len(),
            stack@ == old(stack)@,
            orig == headings_abs(stack@),
            headings_abs(kept@) =~= orig.take(i as int).filter(level_below(level as int)),
        decreases stack@.len() - i,
    {
        let ghost pre = headings_abs(kept@);
        let keep = stack[i].level < level;
        if keep {
            let entry = HeadingEntry { level: stack[i].level, title: clone_chars(&stack[i].title) };
            assert(entry@ == stack@[i as int]@);
            kept.push(entry);
            assert(headings_abs(kept@) =~= pre.push(stack@[i as int]@));
        }
        proof {
            lemma_filter_take_step(orig, i as int, level as int);
        }
        i += 1;
    }
    proof {
        assert(orig.take(orig.len() as int) =~= orig);
    }
    let title = trim_chars(&builder.buffer);
    kept.push(HeadingEntry { level, title });
    assert(headings_abs(kept@) =~= commit_spec(orig, builder.buffer@, level as int));
    *stack = kept;
}

fn opt_chars_to_string(o: &Option<Vec<char>>) -> (r: Option<String>)
    ensures
        os(r) == ov(*o),
{
    match o {
        None => None,
        Some(v) => Some(chars_to_string(v)),
    }
}

/// Normalized metadata for a runnable block discovered in markdown.
#[derive(Clone, Debug)]
pub struct CodeBlock {
    /// Stable identifier assigned by discovery order, e.g. `block-001`.
    pub id: String,
    /// Optional human-readable name provided via `runme:name`.
    pub name: Option<String>,
    /// Language info string (lowercase) when provided.
    pub language: Option<String>,
    /// Heading hierarchy providing context for reporter output.
    pub headings: Vec<String>,
    /// Raw contents stripped from the fenced block.
    pub content: String,
    /// Optional explanation when a directive marks the block as non-runnable.
    pub skip_reason: Option<String>,
}

/// The spec-level counterpart of `CodeBlock`.
pub struct BlockAbs {
    pub id: Seq<char>,
    pub name: Option<Seq<char>>,
    pub language: Option<Seq<char>>,
    pub headings: Seq<Seq<char>>,
    pub content: Seq<char>,
    pub skip_reason: Option<Seq<char>>,
}

impl View for CodeBlock {
    type V = BlockAbs;

    open spec fn view(&self) -> BlockAbs {
        BlockAbs {
            id: self.id@,
            name: os(self.name),
            language: os(self.language),
            headings: strings_abs(self.headings@),
            content: self.content@,
            skip_reason: os(self.skip_reason),
        }
    }
}

/// Whether a block is executed as shell: untagged blocks default to shell,
/// and otherwise the language, trimmed and lowercased, must be one of
/// `bash`, `sh`, `shell`, `zsh`.
pub open spec fn is_shell_abs(b: BlockAbs) -> bool {
    match b.language {
        None => true,
        Some(l) => {
            let t = lower_spec(trim_spec(l));
            t == "bash"@ || t == "sh"@ || t == "shell"@ || t == "zsh"@
        },
    }
}

impl CodeBlock {
    /// True when this block looks like a shell script that can be executed.
    pub fn is_shell(&self) -> (r: bool)
        ensures
            r == is_shell_abs(self@),
    {
        match &self.language {
            None => true,
            Some(l) => {
                let cs = str_to_chars(l.as_str());
                let t = lower_chars(&trim_chars(&cs));
                eq_chars(&t, &str_to_chars("bash")) || eq_chars(&t, &str_to_chars("sh"))
                    || eq_chars(&t, &str_to_chars("shell")) || eq_chars(&t, &str_to_chars("zsh"))
            },
        }
    }
}

/// The scanner's whole state: the heading path, the heading title being
/// accumulated (when inside a heading), the directives pending for the next
/// block, the code block being collected (when inside one), the blocks
/// emitted so far, and whether a stray block close was seen.
pub struct ScanAbs {
    pub headings: Seq<HeadingAbs>,
    pub active: Option<Seq<char>>,
    pub pending_name: Option<Seq<char>>,
    pub pending_skip: Option<Seq<char>>,
    pub collecting: bool,
    pub language: Option<Seq<char>>,
    pub inline_name: Option<Seq<char>>,
    pub content: Seq<char>,
    pub blocks: Seq<BlockAbs>,
    pub failed: bool,
}

pub open spec fn scan_init() -> ScanAbs {
    ScanAbs {
        headings: Seq::empty(),
        active: None,
        pending_name: None,
        pending_skip: None,
        collecting: false,
        language: None,
        inline_name: None,
        content: Seq::empty(),
        blocks: Seq::empty(),
        failed: false,
    }
}

/// The skip reason recorded for a block marked with an ignore directive.
pub open spec fn ignore_reason() -> Seq<char> {
    "Marked with runme:ignore"@
}

/// The block emitted when a close-fence event arrives: the next sequential
/// id, the current heading path, the pending comment name (else the inline
/// fence name), the trimmed content, and any pending skip reason; all
/// pending per-block state is consumed.
pub open spec fn emit_block(st: ScanAbs) -> ScanAbs {
    let b = BlockAbs {
        id: block_id_spec((st.blocks.len() + 1) as nat),
        name: if st.pending_name is Some {
            st.pending_name
        } else {
            st.inline_name
        },
        language: st.language,
        headings: st.headings.map_values(|h: HeadingAbs| h.title),
        content: trim_spec(st.content),
        skip_reason: st.pending_skip,
    };
    ScanAbs {
        blocks: st.blocks.push(b),
        collecting: false,
        language: None,
        inline_name: None,
        pending_name: None,
        pending_skip: None,
        content: Seq::empty(),
        ..st
    }
}

/// One scanner transition. A failed scan absorbs every further event.
pub open spec fn scan_step(st: ScanAbs, ev: MdEventAbs) -> ScanAbs {
    if st.failed {
        st
    } else {
        match ev {
            MdEventAbs::HeadingStart(_) => ScanAbs { active: Some(Seq::empty()), ..st },
            MdEventAbs::Text(t) => {
                if st.active is Some {
                    ScanAbs { active: Some(builder_push_spec(st.active->Some_0, t)), ..st }
                } else if st.collecting {
                    ScanAbs { content: st.content + t, ..st }
                } else {
                    st
                }
            },
            MdEventAbs::Code(t) => {
                if st.collecting {
                    ScanAbs { content: st.content + t, ..st }
                } else if st.active is Some {
                    ScanAbs { active: Some(builder_push_spec(st.active->Some_0, t)), ..st }
                } else {
                    st
                }
            },
            MdEventAbs::Html(h) => {
                match directive_spec(h) {
                    Some(DirectiveAbs::Ignore) => ScanAbs {
                        pending_skip: Some(ignore_reason()),
                        ..st
                    },
                    Some(DirectiveAbs::Name(Some(n))) => ScanAbs { pending_name: Some(n), ..st },
                    _ => st,
                }
            },
            MdEventAbs::FenceStart(info) => {
                let m = fence_meta_spec(info);
                ScanAbs {
                    collecting: true,
                    content: Seq::empty(),
                    inline_name: m.name,
                    language: m.language,
                    pending_skip: if m.ignore {
                        Some(ignore_reason())
                    } else {
                        st.pending_skip
                    },
                    ..st
                }
            },
            MdEventAbs::IndentStart => ScanAbs {
                collecting: true,
                content: Seq::empty(),
                inline_name: None,
                language: None,
                ..st
            },
            MdEventAbs::HeadingEnd(level) => {
                if st.active is Some {
                    ScanAbs {
                        headings: commit_spec(st.headings, st.active->Some_0, level as int),
                        active: None,
                        ..st
                    }
                } else {
                    st
                }
            },
            MdEventAbs::BlockEnd => {
                if !st.collecting {
                    ScanAbs { failed: true, ..st }
                } else {
                    emit_block(st)
                }
            },
            MdEventAbs::Other => st,
        }
    }
}

/// The scanner folded over an event stream, left to right.
pub open spec fn scan_fold(events: Seq<MdEventAbs>, st: ScanAbs) -> ScanAbs
    decreases events.len(),
{
    if events.len() == 0 {
        st
    } else {
        scan_fold(events.drop_first(), scan_step(st, events[0]))
    }
}

proof fn lemma_fold_failed(events: Seq<MdEventAbs>, st: ScanAbs)
    requires
        st.failed,
    ensures
        scan_fold(events, st) == st,
    decreases events.len(),
{
    if events.len() > 0 {
        lemma_fold_failed(events.drop_first(), st);
    }
}

/// Why a document could not be scanned into blocks.
#[derive(Clone, Debug)]
pub enum ParseError {
    /// A closing code-block event arrived with no matching open fence.
    UnmatchedClose,
    /// The document ended while still inside a code block.
    UnterminatedFence,
}

impl ParseError {
    /// A human-readable description of the failure.
    pub fn message(&self) -> (m: &'static str)
        ensures
            m@ == match self {
                ParseError::UnmatchedClose => "encountered closing code block without start"@,
                ParseError::UnterminatedFence => "markdown ended while inside code block"@,
            },
    {
        match self {
            ParseError::UnmatchedClose => "encountered closing code block without start",
            ParseError::UnterminatedFence => "markdown ended while inside code block",
        }
    }
}

pub open spec fn blocks_abs(blocks: Seq<CodeBlock>) -> Seq<BlockAbs> {
    blocks.map_values(|b: CodeBlock| b@)
}

/// How the scanner's result relates to the final fold state: blocks are
/// returned exactly when no stray close was seen and no fence was left open.
pub open spec fn scan_result_matches(
    fin: ScanAbs,
    r: Result<Vec<CodeBlock>, ParseError>,
) -> bool {
    match r {
        Ok(blocks) => !fin.failed && !fin.collecting && blocks_abs(blocks@) == fin.blocks,
        Err(ParseError::UnmatchedClose) => fin.failed,
        Err(ParseError::UnterminatedFence) => !fin.failed && fin.collecting,
    }
}

spec fn st_matches(
    st: ScanAbs,
    headings: Seq<HeadingEntry>,
    active_on: bool,
    buf: Seq<char>,
    pending_name: Option<Vec<char>>,
    pending_skip: Option<Vec<char>>,
    collecting: bool,
    language: Option<Vec<char>>,
    inline_name: Option<Vec<char>>,
    content: Seq<char>,
    blocks: Seq<CodeBlock>,
) -> bool {
    &&& !st.failed
    &&& st.headings == headings_abs(headings)
    &&& st.active == (if active_on {
        Some(buf)
    } else {
        None::<Seq<char>>
    })
    &&& st.pending_name == ov(pending_name)
    &&& st.pending_skip == ov(pending_skip)
    &&& st.collecting == collecting
    &&& st.language == ov(language)
    &&& st.inline_name == ov(inline_name)
    &&& st.content == content
    &&& st.blocks == blocks_abs(blocks)
}

fn headings_to_strings(hs: &Vec<HeadingEntry>) -> (r: Vec<String>)
    ensures
        strings_abs(r@) == headings_abs(hs@).map_values(|h: HeadingAbs| h.title),
{
    let mut r: Vec<String> = Vec::new();
    let mut i: usize = 0;
    while i < hs.len()
        invariant
            0 <= i <= hs@.len(),
            strings_abs(r@) =~= headings_abs(hs@.take(i as int)).map_values(
                |h: HeadingAbs| h.title,
            ),
        decreases hs@.len() - i,
    {
        let ghost pre = strings_abs(r@);
        r.push(chars_to_string(&hs[i].title));
        assert(strings_abs(r@) =~= pre.push(hs@[i as int].title@));
        assert(headings_abs(hs@.take(i + 1)).map_values(|h: HeadingAbs| h.title) =~= pre.push(
            hs@[i as int].title@,
        ));
        i += 1;
    }
    assert(hs@.take(hs@.len() as int) =~= hs@);
    r
}

/// Runs the verified scanner over an event stream: emits the blocks in
/// discovery order, or the error the stream's shape forces.
pub fn scan_events(events: &Vec<MdEvent>) -> (r: Result<Vec<CodeBlock>, ParseError>)
    ensures
        scan_result_matches(scan_fold(events_abs(events@), scan_init()), r),
{
    let ghost eabs = events_abs(events@);
    let n = events.len();
    let mut headings: Vec<HeadingEntry> = Vec::new();
    let mut active_on: bool = false;
    let mut builder = HeadingBuilder::new();
    let mut pending_name: Option<Vec<char>> = None;
    let mut pending_skip: Option<Vec<char>> = None;
    let mut collecting: bool = false;
    let mut language: Option<Vec<char>> = None;
    let mut inline_name: Option<Vec<char>> = None;
    let mut content: Vec<char> = Vec::new();
    let mut blocks: Vec<CodeBlock> = Vec::new();
    let ghost mut st: ScanAbs = scan_init();
    let mut i: usize = 0;
    proof {
        assert(eabs.skip(0) =~= eabs);
        assert(headings_abs(headings@) =~= Seq::<HeadingAbs>::empty());
        assert(blocks_abs(blocks@) =~= Seq::<BlockAbs>::empty());
    }
    while i < n
        invariant
            0 <= i <= n,
            n == events@.len(),
            eabs == events_abs(events@),
            eabs.len() == events@.len(),
            blocks@.len() <= i,
            scan_fold(eabs, scan_init()) == scan_fold(eabs.skip(i as int), st),
            st_matches(
                st,
                headings@,
                active_on,
                builder.buffer@,
                pending_name,
                pending_skip,
                collecting,
                language,
                inline_name,
                content@,
                blocks@,
            ),
        decreases n - i,
    {
        proof {
            assert(eabs.skip(i as int).drop_first() =~= eabs.skip(i + 1));
            assert(eabs.skip(i as int)[0] == eabs[i as int]);
            assert(eabs[i as int] == events@[i as int]@);
        }
        let ghost pre = st;
        proof {
            st = scan_step(st, eabs[i as int]);
        }
        match &events[i] {
            MdEvent::HeadingStart(_) => {
                active_on = true;
                builder = HeadingBuilder::new();
            },
            MdEvent::Text(t) => {
                let tc = str_to_chars(t.as_str());
                if active_on {
                    builder.push(&tc);
                } else if collecting {
                    crate::text::append_chars(&mut content, &tc);
                }
            },
            MdEvent::Code(t) => {
                let tc = str_to_chars(t.as_str());
                if collecting {
                    crate::text::append_chars(&mut content, &tc);
                } else if active_on {
                    builder.push(&tc);
                }
            },
            MdEvent::Html(h) => {
                let hc = str_to_chars(h.as_str());
                match parse_directive(&hc) {
                    Some(Directive::Ignore) => {
                        pending_skip = Some(str_to_chars("Marked with runme:ignore"));
                    },
                    Some(Directive::Name(Some(nm))) => {
                        pending_name = Some(nm);
                    },
                    Some(Directive::Name(None)) => {},
                    None => {},
                }
            },
            MdEvent::FenceStart(info) => {
                let ic = str_to_chars(info.as_str());
                let meta = parse_fence_meta(&ic);
                collecting = true;
                content = Vec::new();
                inline_name = meta.name;
                language = meta.language;
                if meta.ignore {
                    pending_skip = Some(str_to_chars("Marked with runme:ignore"));
                }
            },
            MdEvent::IndentStart => {
                collecting = true;
                content = Vec::new();
                inline_name = None;
                language = None;
            },
            MdEvent::HeadingEnd(level) => {
                if active_on {
                    let lv = *level;
                    commit_heading(&mut headings, &builder, lv);
                    builder = HeadingBuilder::new();
                    active_on = false;
                }
            },
            MdEvent::BlockEnd => {
                if !collecting {
                    proof {
                        lemma_fold_failed(eabs.skip(i + 1), st);
                    }
                    return Err(ParseError::UnmatchedClose);
                }
                let k = blocks.len();
                let id = chars_to_string(&crate::text::block_id_chars(k + 1));
                let name = if pending_name.is_some() {
                    opt_chars_to_string(&pending_name)
                } else {
                    opt_chars_to_string(&inline_name)
                };
                let lang = opt_chars_to_string(&language);
                let hd = headings_to_strings(&headings);
                let body = chars_to_string(&trim_chars(&content));
                let skip = opt_chars_to_string(&pending_skip);
                let ghost preblocks = blocks_abs(blocks@);
                let block = CodeBlock {
                    id,
                    name,
                    language: lang,
                    headings: hd,
                    content: body,
                    skip_reason: skip,
                };
                assert(block@ == emit_block(pre).blocks.last());
                blocks.push(block);
                assert(blocks_abs(blocks@) =~= preblocks.push(block@));
                collecting = false;
                language = None;
                inline_name = None;
                pending_name = None;
                pending_skip = None;
                content = Vec::new();
            },
            MdEvent::Other => {},
        }
        i += 1;
    }
    proof {
        assert(eabs.skip(n as int) =~= Seq::<MdEventAbs>::empty());
    }
    if collecting {
        Err(ParseError::UnterminatedFence)
    } else {
        Ok(blocks)
    }
}

/// Every block's id encodes its 1-based discovery position.
pub open spec fn ids_ok(blocks: Seq<BlockAbs>) -> bool {
    forall|k: int|
        0 <= k < blocks.len() ==> (#[trigger] blocks[k]).id == block_id_spec((k + 1) as nat)
}

proof fn lemma_step_ids(st: ScanAbs, ev: MdEventAbs)
    requires
        ids_ok(st.blocks),
    ensures
        ids_ok(scan_step(st, ev).blocks),
{
    let ns = scan_step(st, ev);
    assert forall|k: int| 0 <= k < ns.blocks.len() implies (#[trigger] ns.blocks[k]).id
        == block_id_spec((k + 1) as nat) by {
        if k < st.blocks.len() {
            assert(st.blocks[k].id == block_id_spec((k + 1) as nat));
        }
    }
}

proof fn lemma_fold_ids(events: Seq<MdEventAbs>, st: ScanAbs)
    requires
        ids_ok(st.blocks),
    ensures
        ids_ok(scan_fold(events, st).blocks),
    decreases events.len(),
{
    if events.len() > 0 {
        lemma_step_ids(st, events[0]);
        lemma_fold_ids(events.drop_first(), scan_step(st, events[0]));
    }
}

/// For every document, the k-th block of discovery order (0-based `k`)
/// receives the id `block-<k+1>` zero-padded to a width of at least three,
/// regardless of intervening headings or directives.
pub proof fn lemma_block_ids_follow_discovery(events: Seq<MdEventAbs>, k: int)
    requires
        0 <= k < scan_fold(events, scan_init()).blocks.len(),
    ensures
        scan_fold(events, scan_init()).blocks[k].id == block_id_spec((k + 1) as nat),
{
    lemma_fold_ids(events, scan_init());
}

/// Block ids are unique: distinct discovery positions always carry distinct
/// ids, so the id order is exactly the discovery order.
pub proof fn lemma_block_ids_unique(events: Seq<MdEventAbs>, k1: int, k2: int)
    requires
        0 <= k1 < scan_fold(events, scan_init()).blocks.len(),
        0 <= k2 < scan_fold(events, scan_init()).blocks.len(),
        k1 != k2,
    ensures
        scan_fold(events, scan_init()).blocks[k1].id != scan_fold(
            events,
            scan_init(),
        ).blocks[k2].id,
{
    lemma_block_ids_follow_discovery(events, k1);
    lemma_block_ids_follow_discovery(events, k2);
    if scan_fold(events, scan_init()).blocks[k1].id == scan_fold(
        events,
        scan_init(),
    ).blocks[k2].id {
        crate::text::lemma_block_id_injective((k1 + 1) as nat, (k2 + 1) as nat);
    }
}

/// A well-formed heading stack: levels strictly increase from outermost to
/// innermost, so no two entries share a level.
pub open spec fn stack_wf(hs: Seq<HeadingAbs>) -> bool {
    forall|i: int, j: int|
        0 <= i < j < hs.len() ==> (#[trigger] hs[i]).level < (#[trigger] hs[j]).level
}

proof fn lemma_filter_wf_bound(s: Seq<HeadingAbs>, level: int, bound: int)
    requires
        stack_wf(s),
        forall|i: int| 0 <= i < s.len() ==> (#[trigger] s[i]).level < bound,
    ensures
        stack_wf(s.filter(level_below(level))),
        forall|k: int|
            0 <= k < s.filter(level_below(level)).len() ==> (#[trigger] s.filter(
                level_below(level),
            )[k]).level < bound,
    decreases s.len(),
{
    reveal_with_fuel(Seq::filter, 2);
    let f = s.filter(level_below(level));
    if s.len() > 0 {
        let d = s.drop_last();
        let last = s.last();
        assert(forall|i: int| 0 <= i < d.len() ==> (#[trigger] d[i]) == s[i]);
        lemma_filter_wf_bound(d, level, bound);
        let fd = d.filter(level_below(level));
        if level_below(level)(last) {
            assert(f == fd.push(last));
            assert(forall|i: int| 0 <= i < d.len() ==> (#[trigger] d[i]).level < last.level);
            lemma_filter_wf_bound(d, level, last.level);
            assert forall|i: int, j: int| 0 <= i < j < f.len() implies (#[trigger] f[i]).level < (
            #[trigger] f[j]).level by {
                if j < fd.len() {
                    assert(fd[i].level < fd[j].level);
                } else {
                    assert(f[j] == last);
                    assert(fd[i].level < last.level);
                }
            }
        } else {
            assert(f == fd);
        }
    }
}

/// Heading-stack invariant at a commit: pruning a well-formed stack for a
/// heading of level `level` and pushing the new entry leaves a well-formed
/// stack whose top is the new heading and whose other entries all have a
/// strictly shallower level — at most one entry per level, and no entry of
/// level `level` or deeper besides the new one.
pub proof fn lemma_commit_keeps_stack_invariant(stack: Seq<HeadingAbs>, title: Seq<char>, level: int)
    requires
        stack_wf(stack),
    ensures
        ({
            let ns = commit_spec(stack, title, level);
            &&& stack_wf(ns)
            &&& ns.len() >= 1
            &&& ns.last().level == level
            &&& forall|i: int| 0 <= i < ns.len() - 1 ==> (#[trigger] ns[i]).level < level
        }),
{
    let f = stack.filter(level_below(level));
    let ns = commit_spec(stack, title, level);
    if stack.len() == 0 {
        reveal_with_fuel(Seq::filter, 1);
        assert(f =~= Seq::<HeadingAbs>::empty());
    } else {
        let bound = stack.last().level + 1;
        assert(forall|i: int| 0 <= i < stack.len() ==> (#[trigger] stack[i]).level < bound);
        lemma_filter_wf_bound(stack, level, bound);
    }
    assert forall|i: int| 0 <= i < ns.len() - 1 implies (#[trigger] ns[i]).level < level by {
        stack.lemma_filter_pred(level_below(level), i);
    }
    assert forall|i: int, j: int| 0 <= i < j < ns.len() implies (#[trigger] ns[i]).level < (
    #[trigger] ns[j]).level by {
        if j < ns.len() - 1 {
            assert(f[i].level < f[j].level);
        } else {
            stack.lemma_filter_pred(level_below(level), i);
        }
    }
}

proof fn lemma_step_stack_wf(st: ScanAbs, ev: MdEventAbs)
    requires
        stack_wf(st.headings),
    ensures
        stack_wf(scan_step(st, ev).headings),
{
    let ns = scan_step(st, ev);
    if ns.headings != st.headings {
        match ev {
            MdEventAbs::HeadingEnd(level) => {
                if !st.failed && st.active is Some {
                    lemma_commit_keeps_stack_invariant(
                        st.headings,
                        st.active->Some_0,
                        level as int,
                    );
                }
            },
            _ => {},
        }
    }
}

proof fn lemma_fold_stack_wf(events: Seq<MdEventAbs>, st: ScanAbs)
    requires
        stack_wf(st.headings),
    ensures
        stack_wf(scan_fold(events, st).headings),
    decreases events.len(),
{
    if events.len() > 0 {
        lemma_step_stack_wf(st, events[0]);
        lemma_fold_stack_wf(events.drop_first(), scan_step(st, events[0]));
    }
}

/// After any prefix of a scan the heading stack is well formed: strictly
/// increasing levels, hence at most one entry per level.
pub proof fn lemma_scan_heading_stack_wf(events: Seq<MdEventAbs>)
    ensures
        stack_wf(scan_fold(events, scan_init()).headings),
{
    lemma_fold_stack_wf(events, scan_init());
}

/// Heading-stack invariant at the scan level: after processing a heading of
/// level `level` at any point of a scan, the stack holds at most one entry
/// per level, and no entry of level `level` or deeper other than the new
/// heading itself, which sits on top.
pub proof fn lemma_heading_event_keeps_stack_invariant(events: Seq<MdEventAbs>, level: u32)
    requires
        !scan_fold(events, scan_init()).failed,
        scan_fold(events, scan_init()).active is Some,
    ensures
        ({
            let hs = scan_step(
                scan_fold(events, scan_init()),
                MdEventAbs::HeadingEnd(level),
            ).headings;
            &&& stack_wf(hs)
            &&& hs.len() >= 1
            &&& hs.last().level == level as int
            &&& forall|i: int| 0 <= i < hs.len() - 1 ==> (#[trigger] hs[i]).level < level as int
        }),
{
    let st = scan_fold(events, scan_init());
    lemma_scan_heading_stack_wf(events);
    lemma_commit_keeps_stack_invariant(st.headings, st.active->Some_0, level as int);
}

/// Name precedence: a block closed while both a comment-directive name and
/// an inline fence name are pending is emitted with the comment directive's
/// name.
pub proof fn lemma_comment_name_precedence(st: ScanAbs, n: Seq<char>, m: Seq<char>)
    requires
        !st.failed,
        st.collecting,
        st.pending_name == Some(n),
        st.inline_name == Some(m),
    ensures
        ({
            let ns = scan_step(st, MdEventAbs::BlockEnd);
            &&& ns.blocks.len() == st.blocks.len() + 1
            &&& ns.blocks.last().name == Some(n)
        }),
{
}

/// Parses a markdown document and surfaces runnable code blocks in
/// discovery order: the verified scanner applied to the document's
/// structural event stream.
pub fn extract_blocks(markdown: &str) -> (r: Result<Vec<CodeBlock>, ParseError>)
    ensures
        scan_result_matches(scan_fold(md_events(markdown@), scan_init()), r),
{
    let events = parse_events(markdown);
    scan_events(&events)
}

} // verus!
