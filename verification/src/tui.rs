//! What the terminal presentation reads from the core: the tab ring, the
//! form-field model, and the plain-text renderings of call results.  The
//! drawing itself lives outside this crate.

use vstd::prelude::*;
use crate::mcp_messages::{
    CallToolResult, ToolContent, ResourceContents, GetPromptResult, PromptMessage,
    PromptMessageContent, PromptContent,
};
use crate::text::{dec_digits, push_chars, push_u64_digits, string_of_chars};

verus! {

broadcast use vstd::std_specs::vec::group_vec_axioms, vstd::seq::group_seq_axioms;

/// The panes, in ring order; the debug pane exists only in debug mode.
#[derive(Clone, Copy, Debug, PartialEq, Eq, Structural)]
pub enum Tab {
    Tools,
    Prompts,
    Resources,
    ServerInfo,
    ServerLogs,
    DebugLogs,
}

pub open spec fn next_tab(t: Tab, debug_mode: bool) -> Tab {
    match t {
        Tab::Tools => Tab::Prompts,
        Tab::Prompts => Tab::Resources,
        Tab::Resources => Tab::ServerInfo,
        Tab::ServerInfo => Tab::ServerLogs,
        Tab::ServerLogs => if debug_mode {
            Tab::DebugLogs
        } else {
            Tab::Tools
        },
        Tab::DebugLogs => Tab::Tools,
    }
}

pub open spec fn previous_tab(t: Tab, debug_mode: bool) -> Tab {
    match t {
        Tab::Tools => if debug_mode {
            Tab::DebugLogs
        } else {
            Tab::ServerLogs
        },
        Tab::Prompts => Tab::Tools,
        Tab::Resources => Tab::Prompts,
        Tab::ServerInfo => Tab::Resources,
        Tab::ServerLogs => Tab::ServerInfo,
        Tab::DebugLogs => Tab::ServerLogs,
    }
}

pub open spec fn tab_label(t: Tab) -> Seq<char> {
    match t {
        Tab::Tools => "Tools"@,
        Tab::Prompts => "Prompts"@,
        Tab::Resources => "Resources"@,
        Tab::ServerInfo => "Server Info"@,
        Tab::ServerLogs => "Server Logs"@,
        Tab::DebugLogs => "Debug Logs"@,
    }
}

impl Tab {
    /// The pane after this one in the ring.
    pub fn next(&self, debug_mode: bool) -> (r: Tab)
        ensures
            r == next_tab(*self, debug_mode),
    {
        match self {
            Tab::Tools => Tab::Prompts,
            Tab::Prompts => Tab::Resources,
            Tab::Resources => Tab::ServerInfo,
            Tab::ServerInfo => Tab::ServerLogs,
            Tab::ServerLogs => {
                if debug_mode {
                    Tab::DebugLogs
                } else {
                    Tab::Tools
                }
            },
            Tab::DebugLogs => Tab::Tools,
        }
    }

    /// The pane before this one in the ring.
    pub fn previous(&self, debug_mode: bool) -> (r: Tab)
        ensures
            r == previous_tab(*self, debug_mode),
    {
        match self {
            Tab::Tools => {
                if debug_mode {
                    Tab::DebugLogs
                } else {
                    Tab::ServerLogs
                }
            },
            Tab::Prompts => Tab::Tools,
            Tab::Resources => Tab::Prompts,
            Tab::ServerInfo => Tab::Resources,
            Tab::ServerLogs => Tab::ServerInfo,
            Tab::DebugLogs => Tab::ServerLogs,
        }
    }

    /// The pane's title.
    pub fn as_str(&self) -> (r: &'static str)
        ensures
            r@ == tab_label(*self),
    {
        match self {
            Tab::Tools => "Tools",
            Tab::Prompts => "Prompts",
            Tab::Resources => "Resources",
            Tab::ServerInfo => "Server Info",
            Tab::ServerLogs => "Server Logs",
            Tab::DebugLogs => "Debug Logs",
        }
    }
}

/// One input of a tool or prompt form, as derived from its schema.
pub struct InputField {
    pub name: String,
    pub field_type: String,
    pub required: bool,
    pub description: Option<String>,
}

// --- plain-text renderings ---------------------------------------------------

pub open spec fn mime_note(mime: Option<String>, tail: Seq<char>) -> Seq<char> {
    match mime {
        Some(mt) => "MIME Type: "@ + mt@ + tail,
        None => Seq::empty(),
    }
}

/// How one content item of a tool result reads.
pub open spec fn tc_text(c: ToolContent) -> Seq<char> {
    match c {
        ToolContent::Text { text } => text@,
        ToolContent::Image { data, mime_type } => "[Image: "@ + mime_type@ + " ("@ + dec_digits(
            data@.len(),
        ) + " bytes)]\n"@,
        ToolContent::Resource { resource } => match resource {
            ResourceContents::Text { uri, text, mime_type } => "[Resource: "@ + uri@ + "]\n"@
                + mime_note(mime_type, "\n\n"@) + text@,
            ResourceContents::Blob { uri, blob, mime_type } => "[Binary Resource: "@ + uri@ + "]\n"@
                + mime_note(mime_type, "\n"@),
        },
    }
}

pub open spec fn tc_list_text(items: Seq<ToolContent>) -> Seq<char>
    decreases items.len(),
{
    if items.len() == 0 {
        Seq::empty()
    } else if items.len() == 1 {
        tc_text(items[0])
    } else {
        tc_text(items[0]) + "\n---\n\n"@ + tc_list_text(items.drop_first())
    }
}

/// The whole rendering of one tool call's result.
pub open spec fn tool_result_text(name: Seq<char>, result: CallToolResult) -> Seq<char> {
    "Tool Call Result: "@ + name + "\n\n"@ + (if result.is_error == Some(true) {
        "Status: ERROR\n\n"@
    } else {
        "Status: SUCCESS\n\n"@
    }) + "Content:\n"@ + tc_list_text(result.content@)
}

proof fn lemma_tc_list_snoc(items: Seq<ToolContent>, x: ToolContent)
    ensures
        items.len() == 0 ==> tc_list_text(items.push(x)) == tc_text(x),
        items.len() > 0 ==> tc_list_text(items.push(x)) == tc_list_text(items) + "\n---\n\n"@
            + tc_text(x),
    decreases items.len(),
{
    if items.len() == 0 {
        assert(items.push(x)[0] == x);
        assert(tc_list_text(items.push(x)) == tc_text(x));
    } else {
        assert(items.push(x).drop_first() =~= items.drop_first().push(x));
        lemma_tc_list_snoc(items.drop_first(), x);
        assert(items.push(x)[0] == items[0]);
        if items.len() == 1 {
            assert(tc_list_text(items.push(x)) =~= tc_list_text(items) + "\n---\n\n"@ + tc_text(x));
        } else {
            let a = tc_text(items[0]) + "\n---\n\n"@;
            let b = tc_list_text(items.drop_first());
            let c = "\n---\n\n"@ + tc_text(x);
            assert(tc_list_text(items.push(x)) == a + ((b + "\n---\n\n"@) + tc_text(x)));
            lemma_cat_assoc(b, "\n---\n\n"@, tc_text(x));
            lemma_cat_assoc(a, b, c);
            assert(tc_list_text(items) + "\n---\n\n"@ + tc_text(x) == ((a + b) + "\n---\n\n"@)
                + tc_text(x));
            lemma_cat_assoc(a + b, "\n---\n\n"@, tc_text(x));
        }
    }
}

proof fn lemma_cat_assoc(a: Seq<char>, b: Seq<char>, c: Seq<char>)
    ensures
        (a + b) + c == a + (b + c),
{
    assert((a + b) + c =~= a + (b + c));
}

fn push_mime_note(out: &mut Vec<char>, mime: &Option<String>, tail: &str)
    ensures
        final(out)@ == old(out)@ + mime_note(
            match mime {
                Some(m) => Some(*m),
                None => None,
            },
            tail@,
        ),
{
    match mime {
        Some(mt) => {
            push_chars(out, "MIME Type: ");
            push_chars(out, mt.as_str());
            push_chars(out, tail);
            assert(final(out)@ =~= old(out)@ + ("MIME Type: "@ + mt@ + tail@));
        },
        None => {
            assert(final(out)@ =~= old(out)@ + Seq::<char>::empty());
        },
    }
}

fn push_tc_text(out: &mut Vec<char>, c: &ToolContent)
    ensures
        final(out)@ == old(out)@ + tc_text(*c),
{
    match c {
        ToolContent::Text { text } => {
            push_chars(out, text.as_str());
        },
        ToolContent::Image { data, mime_type } => {
            push_chars(out, "[Image: ");
            push_chars(out, mime_type.as_str());
            push_chars(out, " (");
            let n = data.unicode_len();
            push_u64_digits(n as u64, out);
            push_chars(out, " bytes)]\n");
            assert(final(out)@ =~= old(out)@ + tc_text(*c));
        },
        ToolContent::Resource { resource } => match resource {
            ResourceContents::Text { uri, text, mime_type } => {
                push_chars(out, "[Resource: ");
                push_chars(out, uri.as_str());
                push_chars(out, "]\n");
                push_mime_note(out, mime_type, "\n\n");
                push_chars(out, text.as_str());
                assert(final(out)@ =~= old(out)@ + tc_text(*c));
            },
            ResourceContents::Blob { uri, blob, mime_type } => {
                push_chars(out, "[Binary Resource: ");
                push_chars(out, uri.as_str());
                push_chars(out, "]\n");
                push_mime_note(out, mime_type, "\n");
                assert(final(out)@ =~= old(out)@ + tc_text(*c));
            },
        },
    }
}

/// Renders one tool call's result: a header, the status as the error flag
/// reads, and each content item in order, separated by rules.
pub fn format_tool_result(tool_name: &str, result: &CallToolResult) -> (r: String)
    ensures
        r@ == tool_result_text(tool_name@, *result),
{
    let mut out: Vec<char> = Vec::new();
    push_chars(&mut out, "Tool Call Result: ");
    push_chars(&mut out, tool_name);
    push_chars(&mut out, "\n\n");
    let is_err = match result.is_error {
        Some(b) => b,
        None => false,
    };
    if is_err {
        push_chars(&mut out, "Status: ERROR\n\n");
    } else {
        push_chars(&mut out, "Status: SUCCESS\n\n");
    }
    push_chars(&mut out, "Content:\n");
    let ghost head = out@;
    let mut i: usize = 0;
    while i < result.content.len()
        invariant
            0 <= i <= result.content@.len(),
            out@ == head + tc_list_text(result.content@.take(i as int)),
        decreases result.content@.len() - i,
    {
        proof {
            lemma_tc_list_snoc(result.content@.take(i as int), result.content@[i as int]);
            assert(result.content@.take(i + 1) =~= result.content@.take(i as int).push(
                result.content@[i as int],
            ));
        }
        if i > 0 {
            push_chars(&mut out, "\n---\n\n");
        }
        push_tc_text(&mut out, &result.content[i]);
        i = i + 1;
    }
    proof {
        assert(result.content@.take(result.content@.len() as int) =~= result.content@);
    }
    string_of_chars(&out)
}

/// How one prompt content item reads.
pub open spec fn pc_text(c: PromptContent) -> Seq<char> {
    match c {
        PromptContent::Text { text } => text@,
        PromptContent::Image { data, mime_type } => "[Image: "@ + mime_type@ + " ("@ + dec_digits(
            data@.len(),
        ) + " bytes)]"@,
        PromptContent::Resource { resource } => match resource {
            ResourceContents::Text { uri, text, mime_type } => "[Resource: "@ + uri@ + "]\n"@
                + mime_note(mime_type, "\n\n"@) + text@,
            ResourceContents::Blob { uri, blob, mime_type } => "[Binary Resource: "@ + uri@ + "]\n"@
                + mime_note(mime_type, Seq::empty()),
        },
    }
}

pub open spec fn pc_multi_text(cs: Seq<PromptContent>) -> Seq<char>
    decreases cs.len(),
{
    if cs.len() == 0 {
        Seq::empty()
    } else if cs.len() == 1 {
        pc_text(cs[0])
    } else {
        pc_text(cs[0]) + seq!['\n'] + pc_multi_text(cs.drop_first())
    }
}

pub open spec fn pmc_text(c: PromptMessageContent) -> Seq<char> {
    match c {
        PromptMessageContent::Single(x) => pc_text(x),
        PromptMessageContent::Multiple(xs) => pc_multi_text(xs@),
    }
}

/// How one message block reads.
pub open spec fn pm_text(m: PromptMessage) -> Seq<char> {
    "Role: "@ + m.role@ + "\n\n"@ + "Content:\n"@ + pmc_text(m.content) + seq!['\n']
}

pub open spec fn pm_list_text(ms: Seq<PromptMessage>) -> Seq<char>
    decreases ms.len(),
{
    if ms.len() == 0 {
        Seq::empty()
    } else if ms.len() == 1 {
        pm_text(ms[0])
    } else {
        pm_text(ms[0]) + "\n---\n\n"@ + pm_list_text(ms.drop_first())
    }
}

/// The whole rendering of one prompt result.
pub open spec fn prompt_result_text(name: Seq<char>, r: GetPromptResult) -> Seq<char> {
    "Prompt Result: "@ + name + "\n\n"@ + (match r.description {
        Some(d) => "Description: "@ + d@ + "\n\n"@,
        None => Seq::empty(),
    }) + "Messages ("@ + dec_digits(r.messages@.len()) + "):\n\n"@ + pm_list_text(r.messages@)
}

proof fn lemma_pc_multi_snoc(cs: Seq<PromptContent>, x: PromptContent)
    ensures
        cs.len() == 0 ==> pc_multi_text(cs.push(x)) == pc_text(x),
        cs.len() > 0 ==> pc_multi_text(cs.push(x)) == pc_multi_text(cs) + seq!['\n'] + pc_text(x),
    decreases cs.len(),
{
    if cs.len() == 0 {
        assert(cs.push(x)[0] == x);
        assert(pc_multi_text(cs.push(x)) == pc_text(x));
    } else {
        assert(cs.push(x).drop_first() =~= cs.drop_first().push(x));
        lemma_pc_multi_snoc(cs.drop_first(), x);
        assert(cs.push(x)[0] == cs[0]);
        if cs.len() == 1 {
            assert(pc_multi_text(cs.push(x)) =~= pc_multi_text(cs) + seq!['\n'] + pc_text(x));
        } else {
            let a = pc_text(cs[0]) + seq!['\n'];
            let b = pc_multi_text(cs.drop_first());
            let c = seq!['\n'] + pc_text(x);
            assert(pc_multi_text(cs.push(x)) == a + ((b + seq!['\n']) + pc_text(x)));
            lemma_cat_assoc(b, seq!['\n'], pc_text(x));
            lemma_cat_assoc(a, b, c);
            assert(pc_multi_text(cs) + seq!['\n'] + pc_text(x) == ((a + b) + seq!['\n']) + pc_text(
                x,
            ));
            lemma_cat_assoc(a + b, seq!['\n'], pc_text(x));
        }
    }
}

proof fn lemma_pm_list_snoc(ms: Seq<PromptMessage>, x: PromptMessage)
    ensures
        ms.len() == 0 ==> pm_list_text(ms.push(x)) == pm_text(x),
        ms.len() > 0 ==> pm_list_text(ms.push(x)) == pm_list_text(ms) + "\n---\n\n"@ + pm_text(x),
    decreases ms.len(),
{
    if ms.len() == 0 {
        assert(ms.push(x)[0] == x);
        assert(pm_list_text(ms.push(x)) == pm_text(x));
    } else {
        assert(ms.push(x).drop_first() =~= ms.drop_first().push(x));
        lemma_pm_list_snoc(ms.drop_first(), x);
        assert(ms.push(x)[0] == ms[0]);
        if ms.len() == 1 {
            assert(pm_list_text(ms.push(x)) =~= pm_list_text(ms) + "\n---\n\n"@ + pm_text(x));
        } else {
            let a = pm_text(ms[0]) + "\n---\n\n"@;
            let b = pm_list_text(ms.drop_first());
            let c = "\n---\n\n"@ + pm_text(x);
            assert(pm_list_text(ms.push(x)) == a + ((b + "\n---\n\n"@) + pm_text(x)));
            lemma_cat_assoc(b, "\n---\n\n"@, pm_text(x));
            lemma_cat_assoc(a, b, c);
            assert(pm_list_text(ms) + "\n---\n\n"@ + pm_text(x) == ((a + b) + "\n---\n\n"@)
                + pm_text(x));
            lemma_cat_assoc(a + b, "\n---\n\n"@, pm_text(x));
        }
    }
}

fn push_pc_text(out: &mut Vec<char>, c: &PromptContent)
    ensures
        final(out)@ == old(out)@ + pc_text(*c),
{
    match c {
        PromptContent::Text { text } => {
            push_chars(out, text.as_str());
        },
        PromptContent::Image { data, mime_type } => {
            push_chars(out, "[Image: ");
            push_chars(out, mime_type.as_str());
            push_chars(out, " (");
            let n = data.unicode_len();
            push_u64_digits(n as u64, out);
            push_chars(out, " bytes)]");
            assert(final(out)@ =~= old(out)@ + pc_text(*c));
        },
        PromptContent::Resource { resource } => match resource {
            ResourceContents::Text { uri, text, mime_type } => {
                push_chars(out, "[Resource: ");
                push_chars(out, uri.as_str());
                push_chars(out, "]\n");
                push_mime_note(out, mime_type, "\n\n");
                push_chars(out, text.as_str());
                assert(final(out)@ =~= old(out)@ + pc_text(*c));
            },
            ResourceContents::Blob { uri, blob, mime_type } => {
                push_chars(out, "[Binary Resource: ");
                push_chars(out, uri.as_str());
                push_chars(out, "]\n");
                push_mime_note(out, mime_type, "");
                proof {
                    reveal_strlit("");
                    assert(""@ =~= Seq::<char>::empty());
                }
                assert(final(out)@ =~= old(out)@ + pc_text(*c));
            },
        },
    }
}

/// Appends one prompt content item's rendering to the output text.
pub fn format_prompt_content(output: &mut String, content: &PromptContent)
    ensures
        final(output)@ == old(output)@ + pc_text(*content),
{
    let mut piece: Vec<char> = Vec::new();
    push_pc_text(&mut piece, content);
    let text = string_of_chars(&piece);
    output.append(text.as_str());
}

fn push_pmc_text(out: &mut Vec<char>, c: &PromptMessageContent)
    ensures
        final(out)@ == old(out)@ + pmc_text(*c),
{
    match c {
        PromptMessageContent::Single(x) => {
            push_pc_text(out, x);
        },
        PromptMessageContent::Multiple(xs) => {
            let ghost head = out@;
            let mut j: usize = 0;
            while j < xs.len()
                invariant
                    0 <= j <= xs@.len(),
                    c matches PromptMessageContent::Multiple(ys) && ys == *xs,
                    out@ == head + pc_multi_text(xs@.take(j as int)),
                decreases xs@.len() - j,
            {
                proof {
                    lemma_pc_multi_snoc(xs@.take(j as int), xs@[j as int]);
                    assert(xs@.take(j + 1) =~= xs@.take(j as int).push(xs@[j as int]));
                }
                if j > 0 {
                    out.push('\n');
                }
                push_pc_text(out, &xs[j]);
                j = j + 1;
            }
            proof {
                assert(xs@.take(xs@.len() as int) =~= xs@);
            }
        },
    }
}

/// Renders one prompt result: a header, the description when there is one,
/// the message count, and each message block in order.
pub fn format_prompt_result(prompt_name: &str, result: &GetPromptResult) -> (r: String)
    ensures
        r@ == prompt_result_text(prompt_name@, *result),
{
    let mut out: Vec<char> = Vec::new();
    push_chars(&mut out, "Prompt Result: ");
    push_chars(&mut out, prompt_name);
    push_chars(&mut out, "\n\n");
    match &result.description {
        Some(d) => {
            push_chars(&mut out, "Description: ");
            push_chars(&mut out, d.as_str());
            push_chars(&mut out, "\n\n");
        },
        None => {},
    }
    push_chars(&mut out, "Messages (");
    push_u64_digits(result.messages.len() as u64, &mut out);
    push_chars(&mut out, "):\n\n");
    let ghost head = out@;
    let mut i: usize = 0;
    while i < result.messages.len()
        invariant
            0 <= i <= result.messages@.len(),
            out@ == head + pm_list_text(result.messages@.take(i as int)),
        decreases result.messages@.len() - i,
    {
        proof {
            lemma_pm_list_snoc(result.messages@.take(i as int), result.messages@[i as int]);
            assert(result.messages@.take(i + 1) =~= result.messages@.take(i as int).push(
                result.messages@[i as int],
            ));
        }
        if i > 0 {
            push_chars(&mut out, "\n---\n\n");
        }
        push_chars(&mut out, "Role: ");
        push_chars(&mut out, result.messages[i].role.as_str());
        push_chars(&mut out, "\n\n");
        push_chars(&mut out, "Content:\n");
        push_pmc_text(&mut out, &result.messages[i].content);
        out.push('\n');
        proof {
            assert(out@ =~= head + pm_list_text(result.messages@.take(i + 1)));
        }
        i = i + 1;
    }
    proof {
        assert(result.messages@.take(result.messages@.len() as int) =~= result.messages@);
    }
    string_of_chars(&out)
}

/// How one read content item reads, given the resource's own URI.
pub open spec fn rrc_text(top_uri: Seq<char>, c: ResourceContents) -> Seq<char> {
    match c {
        ResourceContents::Text { uri, text, mime_type } => (if uri@ != top_uri {
            "URI: "@ + uri@ + seq!['\n']
        } else {
            Seq::empty()
        }) + mime_note(mime_type, "\n\n"@) + text@,
        ResourceContents::Blob { uri, blob, mime_type } => (if uri@ != top_uri {
            "URI: "@ + uri@ + seq!['\n']
        } else {
            Seq::empty()
        }) + "[Binary Content]\n"@ + mime_note(mime_type, "\n"@) + "Size: "@ + dec_digits(
            blob@.len(),
        ) + " bytes (base64 encoded)\n"@,
    }
}

pub open spec fn rrc_list_text(top_uri: Seq<char>, cs: Seq<ResourceContents>) -> Seq<char>
    decreases cs.len(),
{
    if cs.len() == 0 {
        Seq::empty()
    } else if cs.len() == 1 {
        rrc_text(top_uri, cs[0])
    } else {
        rrc_text(top_uri, cs[0]) + "\n---\n\n"@ + rrc_list_text(top_uri, cs.drop_first())
    }
}

/// The whole rendering of one resource read.
pub open spec fn resource_result_text(
    name: Seq<char>,
    uri: Seq<char>,
    cs: Seq<ResourceContents>,
) -> Seq<char> {
    "Resource Read Result: "@ + name + "\n\nURI: "@ + uri + "\n\n"@ + (if cs.len() == 0 {
        "(empty resource)\n"@
    } else {
        "Contents ("@ + dec_digits(cs.len()) + "):\n\n"@ + rrc_list_text(uri, cs)
    })
}

proof fn lemma_rrc_list_snoc(top_uri: Seq<char>, cs: Seq<ResourceContents>, x: ResourceContents)
    ensures
        cs.len() == 0 ==> rrc_list_text(top_uri, cs.push(x)) == rrc_text(top_uri, x),
        cs.len() > 0 ==> rrc_list_text(top_uri, cs.push(x)) == rrc_list_text(top_uri, cs)
            + "\n---\n\n"@ + rrc_text(top_uri, x),
    decreases cs.len(),
{
    if cs.len() == 0 {
        assert(cs.push(x)[0] == x);
        assert(rrc_list_text(top_uri, cs.push(x)) == rrc_text(top_uri, x));
    } else {
        assert(cs.push(x).drop_first() =~= cs.drop_first().push(x));
        lemma_rrc_list_snoc(top_uri, cs.drop_first(), x);
        assert(cs.push(x)[0] == cs[0]);
        if cs.len() == 1 {
            assert(rrc_list_text(top_uri, cs.push(x)) =~= rrc_list_text(top_uri, cs) + "\n---\n\n"@
                + rrc_text(top_uri, x));
        } else {
            let a = rrc_text(top_uri, cs[0]) + "\n---\n\n"@;
            let b = rrc_list_text(top_uri, cs.drop_first());
            let c = "\n---\n\n"@ + rrc_text(top_uri, x);
            assert(rrc_list_text(top_uri, cs.push(x)) == a + ((b + "\n---\n\n"@) + rrc_text(
                top_uri,
                x,
            )));
            lemma_cat_assoc(b, "\n---\n\n"@, rrc_text(top_uri, x));
            lemma_cat_assoc(a, b, c);
            assert(rrc_list_text(top_uri, cs) + "\n---\n\n"@ + rrc_text(top_uri, x) == ((a + b)
                + "\n---\n\n"@) + rrc_text(top_uri, x));
            lemma_cat_assoc(a + b, "\n---\n\n"@, rrc_text(top_uri, x));
        }
    }
}

fn push_rrc_text(out: &mut Vec<char>, top_uri: &str, c: &ResourceContents)
    ensures
        final(out)@ == old(out)@ + rrc_text(top_uri@, *c),
{
    match c {
        ResourceContents::Text { uri, text, mime_type } => {
            if !(*uri == String::from_str(top_uri)) {
                push_chars(out, "URI: ");
                push_chars(out, uri.as_str());
                out.push('\n');
            }
            push_mime_note(out, mime_type, "\n\n");
            push_chars(out, text.as_str());
            assert(final(out)@ =~= old(out)@ + rrc_text(top_uri@, *c));
        },
        ResourceContents::Blob { uri, blob, mime_type } => {
            if !(*uri == String::from_str(top_uri)) {
                push_chars(out, "URI: ");
                push_chars(out, uri.as_str());
                out.push('\n');
            }
            push_chars(out, "[Binary Content]\n");
            push_mime_note(out, mime_type, "\n");
            push_chars(out, "Size: ");
            let n = blob.unicode_len();
            push_u64_digits(n as u64, out);
            push_chars(out, " bytes (base64 encoded)\n");
            assert(final(out)@ =~= old(out)@ + rrc_text(top_uri@, *c));
        },
    }
}

/// Renders one resource read: a header with the resource's URI, then each
/// content block in order, or a note that the resource was empty.
pub fn format_resource_read_result(
    resource_name: &str,
    uri: &str,
    contents: &Vec<ResourceContents>,
) -> (r: String)
    ensures
        r@ == resource_result_text(resource_name@, uri@, contents@),
{
    let mut out: Vec<char> = Vec::new();
    push_chars(&mut out, "Resource Read Result: ");
    push_chars(&mut out, resource_name);
    push_chars(&mut out, "\n\nURI: ");
    push_chars(&mut out, uri);
    push_chars(&mut out, "\n\n");
    if contents.len() == 0 {
        push_chars(&mut out, "(empty resource)\n");
        return string_of_chars(&out);
    }
    push_chars(&mut out, "Contents (");
    push_u64_digits(contents.len() as u64, &mut out);
    push_chars(&mut out, "):\n\n");
    let ghost head = out@;
    let mut i: usize = 0;
    while i < contents.len()
        invariant
            0 <= i <= contents@.len(),
            contents@.len() > 0,
            out@ == head + rrc_list_text(uri@, contents@.take(i as int)),
        decreases contents@.len() - i,
    {
        proof {
            lemma_rrc_list_snoc(uri@, contents@.take(i as int), contents@[i as int]);
            assert(contents@.take(i + 1) =~= contents@.take(i as int).push(contents@[i as int]));
        }
        if i > 0 {
            push_chars(&mut out, "\n---\n\n");
        }
        push_rrc_text(&mut out, uri, &contents[i]);
        i = i + 1;
    }
    proof {
        assert(contents@.take(contents@.len() as int) =~= contents@);
    }
    string_of_chars(&out)
}

// --- form derivation ----------------------------------------------------------

use crate::json::{JsonValue, JsonData, member_of};

/// The string items of a schema's `required` array; anything that is not a
/// string is passed over.
pub open spec fn str_items(items: Seq<JsonData>) -> Seq<Seq<char>>
    decreases items.len(),
{
    if items.len() == 0 {
        Seq::empty()
    } else {
        (match items[0] {
            JsonData::Str { text } => seq![text],
            _ => Seq::<Seq<char>>::empty(),
        }) + str_items(items.drop_first())
    }
}

pub open spec fn schema_required(d: JsonData) -> Seq<Seq<char>> {
    match member_of(d, "required"@) {
        Some(JsonData::Arr { items }) => str_items(items),
        _ => Seq::empty(),
    }
}

pub open spec fn name_listed(names: Seq<Seq<char>>, n: Seq<char>) -> bool {
    exists|i: int| 0 <= i < names.len() && names[i] == n
}

/// A property's declared type; anything but a string means `string`.
pub open spec fn prop_type(p: JsonData) -> Seq<char> {
    match member_of(p, "type"@) {
        Some(JsonData::Str { text }) => text,
        _ => "string"@,
    }
}

pub open spec fn prop_desc(p: JsonData) -> Option<Seq<char>> {
    match member_of(p, "description"@) {
        Some(JsonData::Str { text }) => Some(text),
        _ => None,
    }
}

/// `f` is the form field one property row yields.
pub open spec fn field_matches(
    f: InputField,
    key: Seq<char>,
    p: JsonData,
    reqs: Seq<Seq<char>>,
) -> bool {
    &&& f.name@ == key
    &&& f.field_type@ == prop_type(p)
    &&& f.required == name_listed(reqs, key)
    &&& match f.description {
        Some(d) => prop_desc(p) == Some(d@),
        None => prop_desc(p) is None,
    }
}

/// The property rows whose requiredness equals `want`, in order.
pub open spec fn part_props(
    props: Seq<(Seq<char>, JsonData)>,
    reqs: Seq<Seq<char>>,
    want: bool,
) -> Seq<(Seq<char>, JsonData)>
    decreases props.len(),
{
    if props.len() == 0 {
        Seq::empty()
    } else {
        (if name_listed(reqs, props[0].0) == want {
            seq![props[0]]
        } else {
            Seq::<(Seq<char>, JsonData)>::empty()
        }) + part_props(props.drop_first(), reqs, want)
    }
}

proof fn lemma_part_snoc(
    props: Seq<(Seq<char>, JsonData)>,
    reqs: Seq<Seq<char>>,
    want: bool,
    x: (Seq<char>, JsonData),
)
    ensures
        name_listed(reqs, x.0) == want ==> part_props(props.push(x), reqs, want) == part_props(
            props,
            reqs,
            want,
        ).push(x),
        name_listed(reqs, x.0) != want ==> part_props(props.push(x), reqs, want) == part_props(
            props,
            reqs,
            want,
        ),
    decreases props.len(),
{
    if props.len() == 0 {
        assert(props.push(x)[0] == x);
        assert(props.push(x).drop_first() =~= Seq::<(Seq<char>, JsonData)>::empty());
        assert(part_props(props.push(x).drop_first(), reqs, want) =~= Seq::<(
            Seq<char>,
            JsonData,
        )>::empty());
        if name_listed(reqs, x.0) == want {
            assert(part_props(props.push(x), reqs, want) =~= part_props(props, reqs, want).push(x));
        } else {
            assert(part_props(props.push(x), reqs, want) =~= part_props(props, reqs, want));
        }
    } else {
        assert(props.push(x)[0] == props[0]);
        assert(props.push(x).drop_first() =~= props.drop_first().push(x));
        lemma_part_snoc(props.drop_first(), reqs, want, x);
        assert(part_props(props.push(x), reqs, want) == (if name_listed(reqs, props[0].0) == want {
            seq![props[0]]
        } else {
            Seq::<(Seq<char>, JsonData)>::empty()
        }) + part_props(props.drop_first().push(x), reqs, want));
        assert(part_props(props, reqs, want) == (if name_listed(reqs, props[0].0) == want {
            seq![props[0]]
        } else {
            Seq::<(Seq<char>, JsonData)>::empty()
        }) + part_props(props.drop_first(), reqs, want));
        if name_listed(reqs, x.0) == want {
            assert(part_props(props.push(x), reqs, want) =~= part_props(props, reqs, want).push(x));
        } else {
            assert(part_props(props.push(x), reqs, want) =~= part_props(props, reqs, want));
        }
    }
}

/// The required names of the schema, as strings.
fn required_names(schema: &JsonValue) -> (r: Vec<String>)
    ensures
        r@.len() == schema_required(schema@).len(),
        forall|i: int|
            0 <= i < r@.len() ==> (#[trigger] r@[i])@ == schema_required(schema@)[i],
{
    match schema.get(&String::from_str("required")) {
        Some(x) => match x.as_array() {
            Some(items) => {
                let ghost gitems = crate::json::data_of_list(items@);
                let mut out: Vec<String> = Vec::new();
                let mut i: usize = 0;
                proof {
                    crate::json::lemma_data_of_list_len(items@);
                    assert(str_items(gitems.take(0)) =~= Seq::<Seq<char>>::empty());
                }
                while i < items.len()
                    invariant
                        0 <= i <= items@.len(),
                        gitems == crate::json::data_of_list(items@),
                        gitems.len() == items@.len(),
                        x@ == (JsonData::Arr { items: gitems }),
                        out@.len() == str_items(gitems.take(i as int)).len(),
                        forall|j: int|
                            0 <= j < out@.len() ==> (#[trigger] out@[j])@ == str_items(
                                gitems.take(i as int),
                            )[j],
                    decreases items@.len() - i,
                {
                    proof {
                        crate::json::lemma_data_of_list_index(items@, i as int);
                        lemma_str_items_snoc(gitems.take(i as int), gitems[i as int]);
                        assert(gitems.take(i + 1) =~= gitems.take(i as int).push(
                            gitems[i as int],
                        ));
                    }
                    match &items[i] {
                        JsonValue::Text(t) => {
                            out.push(t.clone());
                        },
                        _ => {},
                    }
                    i = i + 1;
                }
                proof {
                    assert(gitems.take(gitems.len() as int) =~= gitems);
                }
                out
            },
            None => Vec::new(),
        },
        None => Vec::new(),
    }
}

proof fn lemma_str_items_snoc(items: Seq<JsonData>, x: JsonData)
    ensures
        x is Str ==> str_items(items.push(x)) == str_items(items).push(x->Str_text),
        !(x is Str) ==> str_items(items.push(x)) == str_items(items),
    decreases items.len(),
{
    if items.len() == 0 {
        assert(items.push(x)[0] == x);
        assert(items.push(x).drop_first() =~= Seq::<JsonData>::empty());
        assert(str_items(items.push(x).drop_first()) =~= Seq::<Seq<char>>::empty());
        if x is Str {
            assert(str_items(items.push(x)) =~= str_items(items).push(x->Str_text));
        } else {
            assert(str_items(items.push(x)) =~= str_items(items));
        }
    } else {
        assert(items.push(x)[0] == items[0]);
        assert(items.push(x).drop_first() =~= items.drop_first().push(x));
        lemma_str_items_snoc(items.drop_first(), x);
        assert(str_items(items.push(x)) == (match items[0] {
            JsonData::Str { text } => seq![text],
            _ => Seq::<Seq<char>>::empty(),
        }) + str_items(items.drop_first().push(x)));
        assert(str_items(items) == (match items[0] {
            JsonData::Str { text } => seq![text],
            _ => Seq::<Seq<char>>::empty(),
        }) + str_items(items.drop_first()));
        if x is Str {
            assert(str_items(items.push(x)) =~= str_items(items).push(x->Str_text));
        } else {
            assert(str_items(items.push(x)) =~= str_items(items));
        }
    }
}

fn names_contain(names: &Vec<String>, n: &String) -> (r: bool)
    ensures
        r == name_listed(Seq::new(names@.len(), |i: int| names@[i]@), n@),
{
    let ghost gnames = Seq::new(names@.len(), |i: int| names@[i]@);
    let mut i: usize = 0;
    while i < names.len()
        invariant
            0 <= i <= names@.len(),
            gnames == Seq::new(names@.len(), |k: int| names@[k]@),
            forall|j: int| 0 <= j < i ==> gnames[j] != n@,
        decreases names@.len() - i,
    {
        if names[i] == *n {
            proof {
                assert(gnames[i as int] == n@);
            }
            return true;
        }
        i = i + 1;
    }
    false
}

/// One property row's form field.
fn field_of_prop(key: &String, p: &JsonValue, required: bool) -> (r: InputField)
    ensures
        r.name@ == key@,
        r.field_type@ == prop_type(p@),
        r.required == required,
        match r.description {
            Some(d) => prop_desc(p@) == Some(d@),
            None => prop_desc(p@) is None,
        },
{
    let field_type: String = match p.get(&String::from_str("type")) {
        Some(t) => match t.as_text() {
            Some(s) => s.clone(),
            None => String::from_str("string"),
        },
        None => String::from_str("string"),
    };
    let description: Option<String> = match p.get(&String::from_str("description")) {
        Some(d) => match d.as_text() {
            Some(s) => Some(s.clone()),
            None => None,
        },
        None => None,
    };
    InputField { name: key.clone(), field_type, required, description }
}

/// Derives a form from a tool's input schema: one field per property, the
/// required fields first, each group in schema order.  A schema with no
/// property object yields no fields.
#[verifier::loop_isolation(false)]
pub fn parse_input_schema(schema: &JsonValue) -> (r: Vec<InputField>)
    ensures
        match member_of(schema@, "properties"@) {
            Some(JsonData::Obj { fields: props }) => {
                let reqs = schema_required(schema@);
                let front = part_props(props, reqs, true);
                let back = part_props(props, reqs, false);
                &&& r@.len() == front.len() + back.len()
                &&& forall|i: int|
                    0 <= i < front.len() ==> field_matches(
                        #[trigger] r@[i],
                        front[i].0,
                        front[i].1,
                        reqs,
                    )
                &&& forall|i: int|
                    0 <= i < back.len() ==> field_matches(
                        #[trigger] r@[front.len() + i],
                        back[i].0,
                        back[i].1,
                        reqs,
                    )
            },
            _ => r@.len() == 0,
        },
{
    let names = required_names(schema);
    let ghost reqs = schema_required(schema@);
    proof {
        assert(reqs =~= Seq::new(names@.len(), |i: int| names@[i]@));
    }
    match schema.get(&String::from_str("properties")) {
        Some(x) => match x.as_object() {
            Some(fields) => {
                let ghost gprops = crate::json::data_of_fields(fields@);
                let mut front: Vec<InputField> = Vec::new();
                let mut back: Vec<InputField> = Vec::new();
                let mut i: usize = 0;
                proof {
                    crate::json::lemma_data_of_fields_len(fields@);
                    assert(part_props(gprops.take(0), reqs, true) =~= Seq::<(
                        Seq<char>,
                        JsonData,
                    )>::empty());
                    assert(part_props(gprops.take(0), reqs, false) =~= Seq::<(
                        Seq<char>,
                        JsonData,
                    )>::empty());
                }
                while i < fields.len()
                    invariant
                        0 <= i <= fields@.len(),
                        front@.len() == part_props(gprops.take(i as int), reqs, true).len(),
                        back@.len() == part_props(gprops.take(i as int), reqs, false).len(),
                        forall|j: int|
                            0 <= j < front@.len() ==> field_matches(
                                #[trigger] front@[j],
                                part_props(gprops.take(i as int), reqs, true)[j].0,
                                part_props(gprops.take(i as int), reqs, true)[j].1,
                                reqs,
                            ),
                        forall|j: int|
                            0 <= j < back@.len() ==> field_matches(
                                #[trigger] back@[j],
                                part_props(gprops.take(i as int), reqs, false)[j].0,
                                part_props(gprops.take(i as int), reqs, false)[j].1,
                                reqs,
                            ),
                    decreases fields@.len() - i,
                {
                    proof {
                        crate::json::lemma_data_of_fields_index(fields@, i as int);
                        lemma_part_snoc(gprops.take(i as int), reqs, true, gprops[i as int]);
                        lemma_part_snoc(gprops.take(i as int), reqs, false, gprops[i as int]);
                        assert(gprops.take(i + 1) =~= gprops.take(i as int).push(
                            gprops[i as int],
                        ));
                    }
                    let required = names_contain(&names, &fields[i].0);
                    let f = field_of_prop(&fields[i].0, &fields[i].1, required);
                    if required {
                        front.push(f);
                    } else {
                        back.push(f);
                    }
                    i = i + 1;
                }
                proof {
                    assert(gprops.take(gprops.len() as int) =~= gprops);
                }
                let ghost gfront = part_props(gprops, reqs, true);
                let ghost gback = part_props(gprops, reqs, false);
                let mut out = front;
                let ghost nfront = out@.len();
                let mut k: usize = 0;
                while k < back.len()
                    invariant
                        0 <= k <= back@.len(),
                        out@.len() == nfront + k,
                        forall|j: int|
                            0 <= j < nfront ==> field_matches(
                                #[trigger] out@[j],
                                gfront[j].0,
                                gfront[j].1,
                                reqs,
                            ),
                        forall|j: int|
                            0 <= j < k ==> field_matches(
                                #[trigger] out@[nfront + j],
                                gback[j].0,
                                gback[j].1,
                                reqs,
                            ),
                    decreases back@.len() - k,
                {
                    let f = clone_field(&back[k]);
                    proof {
                        assert(field_matches(back@[k as int], gback[k as int].0, gback[k as int].1, reqs));
                    }
                    out.push(f);
                    k = k + 1;
                }
                out
            },
            None => Vec::new(),
        },
        None => Vec::new(),
    }
}

fn clone_field(f: &InputField) -> (r: InputField)
    ensures
        r.name@ == f.name@,
        r.field_type@ == f.field_type@,
        r.required == f.required,
        match (r.description, f.description) {
            (Some(a), Some(b)) => a@ == b@,
            (None, None) => true,
            _ => false,
        },
{
    InputField {
        name: f.name.clone(),
        field_type: f.field_type.clone(),
        required: f.required,
        description: match &f.description {
            Some(d) => Some(d.clone()),
            None => None,
        },
    }
}

} // verus!
