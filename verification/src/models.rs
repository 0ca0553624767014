//! The items exchanged with the model (messages, tool calls and their
//! outputs) and the conversions between them.
use base64::Engine;
use vstd::prelude::*;

use crate::text::{decimal, decimal_padded, digit_char, lemma_decimal_len, lemma_decimal_padded_len, pow10, push_decimal, push_decimal_padded};

verus! {

// ------------------------------------------------------------------
// Items
// ------------------------------------------------------------------

#[derive(Debug)]
pub enum ContentItem {
    InputText { text: String },
    InputImage { image_url: String },
    OutputText { text: String },
}

/// The content of a `ContentItem`.
pub enum ContentItemView {
    InputText(Seq<char>),
    InputImage(Seq<char>),
    OutputText(Seq<char>),
}

impl View for ContentItem {
    type V = ContentItemView;

    open spec fn view(&self) -> ContentItemView {
        match *self {
            ContentItem::InputText { text } => ContentItemView::InputText(text@),
            ContentItem::InputImage { image_url } => ContentItemView::InputImage(image_url@),
            ContentItem::OutputText { text } => ContentItemView::OutputText(text@),
        }
    }
}

/// Token counts of one model response.
#[derive(Debug, Clone, Copy)]
pub struct TokenUsage {
    pub input_tokens: u64,
    pub cached_input_tokens: u64,
    pub output_tokens: u64,
    pub reasoning_output_tokens: u64,
    pub total_tokens: u64,
}

/// The output of a function call. Sent to the model as the bare `content`
/// string in every case; `success` is only kept locally.
#[derive(Debug)]
pub struct FunctionCallOutputPayload {
    pub content: String,
    pub success: Option<bool>,
}

/// The content of a payload: its text and whether the call succeeded (when known).
pub struct PayloadView {
    pub content: Seq<char>,
    pub success: Option<bool>,
}

impl View for FunctionCallOutputPayload {
    type V = PayloadView;

    open spec fn view(&self) -> PayloadView {
        PayloadView { content: self.content@, success: self.success }
    }
}

/// The text that a payload is sent as: its content, whatever `success` says.
pub open spec fn wire_spec(p: PayloadView) -> Seq<char> {
    p.content
}

/// The payload read back from the text `t`: `t` is the content, and whether
/// the call succeeded is unknown.
pub open spec fn read_wire_spec(t: Seq<char>) -> PayloadView {
    PayloadView { content: t, success: None }
}

impl FunctionCallOutputPayload {
    /// The text sent on the wire: the content, whatever `success` says.
    pub fn wire_text(&self) -> (r: &str)
        ensures
            r@ == wire_spec(self@),
            r@ == self.content@,
    {
        self.content.as_str()
    }

    /// The payload read back from its wire text: the text is the content,
    /// and whether the call succeeded is unknown.
    pub fn from_wire(s: String) -> (r: Self)
        ensures
            r@ == read_wire_spec(s@),
            r.content@ == s@,
            r.success is None,
    {
        FunctionCallOutputPayload { content: s, success: None }
    }

    /// The content, so that the payload reads like a string.
    pub fn as_str(&self) -> (r: &str)
        ensures
            r@ == self.content@,
    {
        self.content.as_str()
    }
}

/// Reading back the wire text of a payload gives its content with whether the
/// call succeeded unknown, and a text read back is sent again unchanged.
pub proof fn law_payload_round_trip(p: PayloadView, t: Seq<char>)
    ensures
        read_wire_spec(wire_spec(p)) == (PayloadView { content: p.content, success: None }),
        wire_spec(read_wire_spec(t)) == t,
{
}

/// Items that the client sends to the model.
#[allow(inconsistent_fields)]
#[derive(Debug)]
pub enum ResponseInputItem {
    Message { role: String, content: Vec<ContentItem>, timestamp: Option<String> },
    FunctionCallOutput { call_id: String, output: FunctionCallOutputPayload },
    /// The result of an MCP tool call: on success, the tool's result as JSON
    /// text; on failure, the error text.
    McpToolCallOutput { call_id: String, result: Result<String, String> },
    CustomToolCallOutput { call_id: String, output: String },
}

#[derive(Debug)]
pub enum LocalShellStatus {
    Completed,
    InProgress,
    Incomplete,
}

#[derive(Debug)]
pub struct LocalShellExecAction {
    pub command: Vec<String>,
    pub timeout_ms: Option<u64>,
    pub working_directory: Option<String>,
    pub env: Option<Vec<(String, String)>>,
    pub user: Option<String>,
}

#[derive(Debug)]
pub enum LocalShellAction {
    Exec(LocalShellExecAction),
}

#[derive(Debug)]
pub enum WebSearchAction {
    Search { query: String },
    Other,
}

#[derive(Debug)]
pub enum ReasoningItemReasoningSummary {
    SummaryText { text: String },
}

#[derive(Debug)]
pub enum ReasoningItemContent {
    ReasoningText { text: String },
    Text { text: String },
}

/// Items of a model response (and the history sent back to it).
#[allow(inconsistent_fields)]
#[derive(Debug)]
pub enum ResponseItem {
    Message {
        id: Option<String>,
        role: String,
        content: Vec<ContentItem>,
        token_usage: Option<TokenUsage>,
        timestamp: Option<String>,
    },
    Reasoning {
        id: String,
        summary: Vec<ReasoningItemReasoningSummary>,
        content: Option<Vec<ReasoningItemContent>>,
        encrypted_content: Option<String>,
        token_usage: Option<TokenUsage>,
        timestamp: Option<String>,
    },
    LocalShellCall {
        id: Option<String>,
        call_id: Option<String>,
        status: LocalShellStatus,
        action: LocalShellAction,
    },
    FunctionCall {
        id: Option<String>,
        name: String,
        arguments: String,
        call_id: String,
        token_usage: Option<TokenUsage>,
        timestamp: Option<String>,
    },
    FunctionCallOutput { call_id: String, output: FunctionCallOutputPayload },
    CustomToolCall { id: Option<String>, status: Option<String>, call_id: String, name: String, input: String },
    CustomToolCallOutput { call_id: String, output: String },
    WebSearchCall { id: Option<String>, status: Option<String>, action: WebSearchAction },
    Other,
}

/// The arguments of a `shell` (or `container.exec`) function call.
#[derive(Debug)]
pub struct ShellToolCallParams {
    pub command: Vec<String>,
    pub workdir: Option<String>,
    /// The maximum time in milliseconds that the command may run.
    pub timeout_ms: Option<u64>,
    pub with_escalated_permissions: Option<bool>,
    pub justification: Option<String>,
}

/// Some reasoning item of `content` is a `ReasoningText`.
pub open spec fn has_reasoning_text(content: Seq<ReasoningItemContent>) -> bool {
    exists|i: int| 0 <= i < content.len() && (#[trigger] content[i]) is ReasoningText
}

/// Whether the `content` of a reasoning item is left out when it is sent:
/// it is when present and free of `ReasoningText` items, and kept otherwise.
pub fn should_serialize_reasoning_content(content: &Option<Vec<ReasoningItemContent>>) -> (r: bool)
    ensures
        r == match content {
            Some(c) => !has_reasoning_text(c@),
            None => false,
        },
{
    match content {
        Some(c) => {
            let mut i: usize = 0;
            while i < c.len()
                invariant
                    i <= c@.len(),
                    *content == Some(*c),
                    forall|j: int| 0 <= j < i ==> !(#[trigger] c@[j] is ReasoningText),
                decreases c.len() - i,
            {
                if let ReasoningItemContent::ReasoningText { .. } = &c[i] {
                    assert(c@[i as int] is ReasoningText);
                    return false;
                }
                i = i + 1;
            }
            true
        },
        None => false,
    }
}

// ------------------------------------------------------------------
// Input items to response items
// ------------------------------------------------------------------

/// std's `Debug` rendering of a string (quoted, with escapes).
pub uninterp spec fn debug_text(s: Seq<char>) -> Seq<char>;

/// The `Debug` rendering of `s`, as std's `format!("{:?}", s)` gives it.
#[verifier::external_body]
fn debug_string(s: &str) -> (r: String)
    ensures
        r@ == debug_text(s@),
{
    format!("{:?}", s)
}

/// `out` is what `ResponseItem::from_input` makes of `input`.
pub open spec fn converts_to(input: ResponseInputItem, out: ResponseItem) -> bool {
    match input {
        ResponseInputItem::Message { role, content, timestamp } => out == ResponseItem::Message {
            id: None,
            role,
            content,
            token_usage: None,
            timestamp,
        },
        ResponseInputItem::FunctionCallOutput { call_id, output } => out == ResponseItem::FunctionCallOutput { call_id, output },
        ResponseInputItem::McpToolCallOutput { call_id, result } => match out {
            ResponseItem::FunctionCallOutput { call_id: c, output } => {
                &&& c == call_id
                &&& output.success == Some(result is Ok)
                &&& output.content@ == match result {
                    Ok(json) => json@,
                    Err(e) => "err: "@ + debug_text(e@),
                }
            },
            _ => false,
        },
        ResponseInputItem::CustomToolCallOutput { call_id, output } => out == ResponseItem::CustomToolCallOutput { call_id, output },
    }
}

impl ResponseItem {
    /// The response item that records an input item: messages keep role,
    /// content and timestamp (no id, no token usage); MCP tool results become
    /// function-call outputs whose content is the result's JSON text, or
    /// `err: ` and the quoted error, with `success` telling which.
    pub fn from_input(item: ResponseInputItem) -> (r: ResponseItem)
        ensures
            converts_to(item, r),
    {
        match item {
            ResponseInputItem::Message { role, content, timestamp } => ResponseItem::Message {
                id: None,
                role,
                content,
                token_usage: None,
                timestamp,
            },
            ResponseInputItem::FunctionCallOutput { call_id, output } => ResponseItem::FunctionCallOutput { call_id, output },
            ResponseInputItem::McpToolCallOutput { call_id, result } => {
                let success = result.is_ok();
                let content = match result {
                    Ok(json) => json,
                    Err(e) => {
                        let mut s = String::from_str("err: ");
                        s.append(debug_string(e.as_str()).as_str());
                        s
                    },
                };
                ResponseItem::FunctionCallOutput {
                    call_id,
                    output: FunctionCallOutputPayload { content, success: Some(success) },
                }
            },
            ResponseInputItem::CustomToolCallOutput { call_id, output } => ResponseItem::CustomToolCallOutput { call_id, output },
        }
    }
}

// ------------------------------------------------------------------
// User input to a message
// ------------------------------------------------------------------

/// What the user attached to a turn. A local image carries its path and the
/// bytes read from it (`None` when it could not be read).
#[derive(Debug)]
pub enum InputItem {
    Text { text: String },
    Image { image_url: String },
    LocalImage { path: String, contents: Option<Vec<u8>> },
}

/// The MIME type that `mime_guess` associates with the extension of `path`.
pub uninterp spec fn guessed_mime(path: Seq<char>) -> Option<Seq<char>>;

/// The essence (`type/subtype`) of the first MIME type guessed from `path`'s
/// extension (`mime_guess::from_path(..).first()`).
#[verifier::external_body]
fn guess_mime_essence(path: &str) -> (r: Option<String>)
    ensures
        r.deep_view() == guessed_mime(path@),
{
    match mime_guess::from_path(path).first() {
        Some(m) => Some(m.essence_str().to_owned()),
        None => None,
    }
}

/// The character of the standard base64 alphabet for `v` (below 64).
pub open spec fn b64_char(v: int) -> char {
    if v < 26 {
        ('A' as int + v) as char
    } else if v < 52 {
        ('a' as int + (v - 26)) as char
    } else if v < 62 {
        ('0' as int + (v - 52)) as char
    } else if v == 62 {
        '+'
    } else {
        '/'
    }
}

/// Standard base64 (RFC 4648 alphabet, `=` padding) of `b`.
pub open spec fn base64_spec(b: Seq<u8>) -> Seq<char>
    decreases b.len(),
{
    if b.len() == 0 {
        Seq::empty()
    } else {
        let x0 = b[0] as int;
        let x1 = if b.len() > 1 { b[1] as int } else { 0 };
        let x2 = if b.len() > 2 { b[2] as int } else { 0 };
        if b.len() == 1 {
            seq![b64_char(x0 / 4), b64_char((x0 % 4) * 16), '=', '=']
        } else if b.len() == 2 {
            seq![b64_char(x0 / 4), b64_char((x0 % 4) * 16 + x1 / 16), b64_char((x1 % 16) * 4), '=']
        } else {
            seq![
                b64_char(x0 / 4),
                b64_char((x0 % 4) * 16 + x1 / 16),
                b64_char((x1 % 16) * 4 + x2 / 64),
                b64_char(x2 % 64),
            ] + base64_spec(b.skip(3))
        }
    }
}

/// Standard base64 of `bytes` (`base64::engine::general_purpose::STANDARD`).
#[verifier::external_body]
fn base64_standard(bytes: &[u8]) -> (r: String)
    requires
        bytes@.len() <= usize::MAX / 2,
    ensures
        r@ == base64_spec(bytes@),
{
    base64::engine::general_purpose::STANDARD.encode(bytes)
}

pub open spec fn mime_or_default(path: Seq<char>) -> Seq<char> {
    match guessed_mime(path) {
        Some(m) => m,
        None => "application/octet-stream"@,
    }
}

/// The data URL that embeds `bytes` read from `path`.
pub open spec fn data_url(path: Seq<char>, bytes: Seq<u8>) -> Seq<char> {
    "data:"@ + mime_or_default(path) + ";base64,"@ + base64_spec(bytes)
}

/// What a message holds for an input item: nothing for an unreadable local image.
pub open spec fn input_content(i: InputItem) -> Option<ContentItemView> {
    match i {
        InputItem::Text { text } => Some(ContentItemView::InputText(text@)),
        InputItem::Image { image_url } => Some(ContentItemView::InputImage(image_url@)),
        InputItem::LocalImage { path, contents } => match contents {
            Some(b) => Some(ContentItemView::InputImage(data_url(path@, b@))),
            None => None,
        },
    }
}

/// The contents of the items that yield one, in order.
pub open spec fn input_contents(items: Seq<InputItem>) -> Seq<ContentItemView>
    decreases items.len(),
{
    if items.len() == 0 {
        Seq::empty()
    } else {
        match input_content(items.last()) {
            Some(c) => input_contents(items.drop_last()).push(c),
            None => input_contents(items.drop_last()),
        }
    }
}

/// The local images hold at most `usize::MAX / 2` bytes each.
pub open spec fn images_fit(items: Seq<InputItem>) -> bool {
    forall|i: int| 0 <= i < items.len() ==> match #[trigger] items[i] {
        InputItem::LocalImage { contents: Some(b), .. } => b@.len() <= usize::MAX / 2,
        _ => true,
    }
}

fn content_of(item: InputItem) -> (r: Option<ContentItem>)
    requires
        match item {
            InputItem::LocalImage { contents: Some(b), .. } => b@.len() <= usize::MAX / 2,
            _ => true,
        },
    ensures
        match r {
            Some(c) => input_content(item) == Some(c@),
            None => input_content(item) is None,
        },
{
    match item {
        InputItem::Text { text } => Some(ContentItem::InputText { text }),
        InputItem::Image { image_url } => Some(ContentItem::InputImage { image_url }),
        InputItem::LocalImage { path, contents } => match contents {
            Some(bytes) => {
                let mime = match guess_mime_essence(path.as_str()) {
                    Some(m) => m,
                    None => String::from_str("application/octet-stream"),
                };
                let encoded = base64_standard(bytes.as_slice());
                let mut url = String::from_str("data:");
                url.append(mime.as_str());
                url.append(";base64,");
                url.append(encoded.as_str());
                Some(ContentItem::InputImage { image_url: url })
            },
            None => None,
        },
    }
}

impl ResponseInputItem {
    /// The user message made of `items`, stamped with `timestamp`: role
    /// `user`, and for each item in order its content (local images become
    /// base64 data URLs; unreadable ones are left out).
    pub fn message_from_input_items(items: Vec<InputItem>, timestamp: String) -> (r: ResponseInputItem)
        requires
            images_fit(items@),
        ensures
            match r {
                ResponseInputItem::Message { role, content, timestamp: ts } => {
                    &&& role@ == "user"@
                    &&& content@.map_values(|c: ContentItem| c@) == input_contents(items@)
                    &&& ts == Some(timestamp)
                },
                _ => false,
            },
    {
        let ghost input = items@;
        let mut rest = items;
        let mut content: Vec<ContentItem> = Vec::new();
        let mut done: usize = 0;
        let total: usize = rest.len();
        assert(input.skip(0) =~= input);
        assert(input.take(0) =~= Seq::<InputItem>::empty());
        while rest.len() > 0
            invariant
                total == input.len(),
                done + rest@.len() == input.len(),
                rest@ == input.skip(done as int),
                images_fit(input),
                content@.map_values(|c: ContentItem| c@) == input_contents(input.take(done as int)),
            decreases rest.len(),
        {
            let item = rest.remove(0);
            assert(rest@ =~= input.skip(done + 1));
            assert(input.take(done + 1).drop_last() =~= input.take(done as int));
            assert(input.take(done + 1).last() == item);
            assert(input[done as int] == item);
            let ghost before = content@;
            match content_of(item) {
                Some(c) => {
                    content.push(c);
                    assert(content@.map_values(|c: ContentItem| c@) =~= before.map_values(|c: ContentItem| c@).push(c@));
                },
                None => {},
            }
            done = done + 1;
        }
        assert(input.take(input.len() as int) =~= input);
        ResponseInputItem::Message { role: String::from_str("user"), content, timestamp: Some(timestamp) }
    }

    /// The user message made of `items`, stamped with the current time.
    pub fn from_input_items(items: Vec<InputItem>) -> (r: ResponseInputItem)
        requires
            images_fit(items@),
        ensures
            match r {
                ResponseInputItem::Message { role, content, timestamp: ts } => {
                    &&& role@ == "user"@
                    &&& content@.map_values(|c: ContentItem| c@) == input_contents(items@)
                    &&& ts matches Some(t) && is_timestamp_text(t@)
                },
                _ => false,
            },
    {
        let timestamp = generate_timestamp();
        Self::message_from_input_items(items, timestamp)
    }
}

// ------------------------------------------------------------------
// Timestamps
// ------------------------------------------------------------------

/// A UTC instant broken into the fields the timestamp shows.
#[derive(Debug)]
pub struct UtcParts {
    pub year: i32,
    pub month: u8,
    pub day: u8,
    pub hour: u8,
    pub minute: u8,
    pub second: u8,
    pub millisecond: u16,
}

impl UtcParts {
    pub open spec fn in_range(&self) -> bool {
        &&& -999_999 <= self.year <= 999_999
        &&& 1 <= self.month <= 12
        &&& 1 <= self.day <= 31
        &&& self.hour <= 23
        &&& self.minute <= 59
        &&& self.second <= 59
        &&& self.millisecond <= 999
    }
}

/// The current UTC date and time (`time::OffsetDateTime::now_utc`), as fields.
#[verifier::external_body]
fn utc_now() -> (r: UtcParts)
    ensures
        r.in_range(),
{
    let now = time::OffsetDateTime::now_utc();
    UtcParts {
        year: now.year(),
        month: u8::from(now.month()),
        day: now.day(),
        hour: now.hour(),
        minute: now.minute(),
        second: now.second(),
        millisecond: now.millisecond(),
    }
}

/// The year as `[year]` shows it: four digits, a `-` before negative years,
/// a `+` before years of five or six digits.
pub open spec fn year_text(y: int) -> Seq<char> {
    if y < 0 {
        "-"@ + decimal_padded((-y) as nat, 4)
    } else if y >= 10000 {
        "+"@ + decimal(y as nat)
    } else {
        decimal_padded(y as nat, 4)
    }
}

/// `YYYY-MM-DDTHH:MM:SS.sssZ` for the given fields.
pub open spec fn timestamp_text(p: UtcParts) -> Seq<char> {
    year_text(p.year as int) + "-"@ + decimal_padded(p.month as nat, 2) + "-"@ + decimal_padded(p.day as nat, 2) + "T"@
        + decimal_padded(p.hour as nat, 2) + ":"@ + decimal_padded(p.minute as nat, 2) + ":"@ + decimal_padded(
        p.second as nat,
        2,
    ) + "."@ + decimal_padded(p.millisecond as nat, 3) + "Z"@
}

/// `t` is the timestamp of some instant.
pub open spec fn is_timestamp_text(t: Seq<char>) -> bool {
    exists|p: UtcParts| p.in_range() && t == #[trigger] timestamp_text(p)
}

/// The timestamp text of `p`: `YYYY-MM-DDTHH:MM:SS.sssZ` (ISO 8601, UTC,
/// millisecond precision).
pub fn format_timestamp(p: &UtcParts) -> (r: String)
    requires
        p.in_range(),
    ensures
        r@ == timestamp_text(*p),
{
    let mut r = String::new();
    if p.year < 0 {
        r.append("-");
        let y: u64 = (0 - (p.year as i64)) as u64;
        assert(y as nat == (-(p.year as int)) as nat);
        push_decimal_padded(&mut r, y, 4);
    } else if p.year >= 10000 {
        r.append("+");
        push_decimal(&mut r, p.year as u64);
    } else {
        push_decimal_padded(&mut r, p.year as u64, 4);
    }
    r.append("-");
    push_decimal_padded(&mut r, p.month as u64, 2);
    r.append("-");
    push_decimal_padded(&mut r, p.day as u64, 2);
    r.append("T");
    push_decimal_padded(&mut r, p.hour as u64, 2);
    r.append(":");
    push_decimal_padded(&mut r, p.minute as u64, 2);
    r.append(":");
    push_decimal_padded(&mut r, p.second as u64, 2);
    r.append(".");
    push_decimal_padded(&mut r, p.millisecond as u64, 3);
    r.append("Z");
    assert(r@ =~= timestamp_text(*p));
    r
}

/// The current UTC time as `YYYY-MM-DDTHH:MM:SS.sssZ`.
pub fn generate_timestamp() -> (r: String)
    ensures
        is_timestamp_text(r@),
{
    let now = utc_now();
    let r = format_timestamp(&now);
    assert(now.in_range() && r@ == timestamp_text(now));
    r
}

} // verus!

verus! {

/// Every timestamp ends in `Z` after a `T`, `:`-separated time and a `.`
/// before three digits of milliseconds, and takes 24 to 27 characters; with a
/// four-digit year it is exactly `YYYY-MM-DDTHH:MM:SS.sssZ` (24 characters).
pub proof fn law_timestamp_shape(p: UtcParts)
    requires
        p.in_range(),
    ensures
        ({
            let t = timestamp_text(p);
            &&& 24 <= t.len() <= 27
            &&& t.last() == 'Z'
            &&& t[t.len() - 5] == '.'
            &&& t[t.len() - 8] == ':'
            &&& t[t.len() - 11] == ':'
            &&& t[t.len() - 14] == 'T'
            &&& t[t.len() - 17] == '-'
            &&& t[t.len() - 20] == '-'
            &&& 0 <= p.year <= 9999 ==> t.len() == 24
        }),
{
    reveal_strlit("-");
    reveal_strlit("+");
    reveal_strlit("T");
    reveal_strlit(":");
    reveal_strlit(".");
    reveal_strlit("Z");
    assert(pow10(1) == 10 && pow10(2) == 100 && pow10(3) == 1000 && pow10(4) == 10000) by {
        reveal_with_fuel(pow10, 5);
    }
    assert(pow10(6) == 1000000) by {
        reveal_with_fuel(pow10, 7);
    }
    lemma_decimal_padded_len(p.month as nat, 2);
    lemma_decimal_padded_len(p.day as nat, 2);
    lemma_decimal_padded_len(p.hour as nat, 2);
    lemma_decimal_padded_len(p.minute as nat, 2);
    lemma_decimal_padded_len(p.second as nat, 2);
    lemma_decimal_padded_len(p.millisecond as nat, 3);
    let y = year_text(p.year as int);
    if p.year < 0 {
        lemma_decimal_len((-(p.year as int)) as nat, 6);
        assert(4 <= decimal_padded((-(p.year as int)) as nat, 4).len() <= 6);
    } else if p.year >= 10000 {
        lemma_decimal_len(p.year as nat, 6);
        assert(decimal(p.year as nat).len() >= 5) by {
            if decimal(p.year as nat).len() < 5 {
                assert(decimal(p.year as nat) == decimal((p.year as nat) / 10).push(digit_char((p.year as nat) % 10)));
                lemma_decimal_ge(p.year as nat);
            }
        }
    } else {
        lemma_decimal_padded_len(p.year as nat, 4);
    }
    assert(4 <= y.len() <= 7);
    let t = timestamp_text(p);
    let rest = "-"@ + decimal_padded(p.month as nat, 2) + "-"@ + decimal_padded(p.day as nat, 2) + "T"@
        + decimal_padded(p.hour as nat, 2) + ":"@ + decimal_padded(p.minute as nat, 2) + ":"@ + decimal_padded(
        p.second as nat,
        2,
    ) + "."@ + decimal_padded(p.millisecond as nat, 3) + "Z"@;
    assert(t =~= y + rest);
    assert(rest.len() == 20);
    assert(rest[19] == 'Z');
    assert(rest[15] == '.');
    assert(rest[12] == ':');
    assert(rest[9] == ':');
    assert(rest[6] == 'T');
    assert(rest[3] == '-');
    assert(rest[0] == '-');
}

/// A number of at least `10^4` has at least five digits.
proof fn lemma_decimal_ge(n: nat)
    requires
        n >= 10000,
    ensures
        decimal(n).len() >= 5,
    decreases n,
{
    assert(decimal(n) == decimal(n / 10).push(digit_char(n % 10)));
    if n / 10 >= 10000 {
        lemma_decimal_ge(n / 10);
    } else {
        let m = n / 10;
        assert(decimal(m) == decimal(m / 10).push(digit_char(m % 10)));
        let m2 = m / 10;
        assert(decimal(m2) == decimal(m2 / 10).push(digit_char(m2 % 10)));
        let m3 = m2 / 10;
        assert(decimal(m3) == decimal(m3 / 10).push(digit_char(m3 % 10)));
        assert(decimal(m3 / 10).len() >= 1);
    }
}

} // verus!
