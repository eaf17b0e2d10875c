//! From a model's reply to a document, with one attempt at repair.
//!
//! A model that gets JSON wrong can mostly mend it when shown the error. One
//! that gets it wrong twice misunderstands the schema, and a third call would
//! spend money to learn nothing.
use crate::json::{json_complaint, json_parse, json_tree, parse_document, JsonTree};
use crate::text::{
    chars_of, has_prefix, has_suffix, head, strip_prefix, strip_suffix, take_chars, text_of_range,
    trim, trim_end, trimmed, trimmed_end,
};
use crate::understanding::domain::chat_model::{ChatError, ChatResult};
use vstd::prelude::*;
use vstd::string::StrSliceExecFns;
use vstd::string::StringExecFns;

verus! {

/// How much of a bad reply is shown to the model again.
pub const PROMPT_LIMIT: usize = 2_000;

/// What the model got wrong last time.
#[derive(Debug, Clone)]
pub struct RepairHint {
    pub previous_output: String,
    pub parse_error: String,
}

impl RepairHint {
    /// The corrective turn.
    pub open spec fn turn(self) -> Seq<char> {
        "Your previous reply could not be parsed as JSON ("@ + self.parse_error@
            + "). Here it is:\n\n"@ + self.previous_output@
            + "\n\nReply again with only the JSON value, conforming to the schema. No prose, no markdown fences."@
    }

    /// The corrective turn, as the user coming back with the problem.
    pub fn as_message(&self) -> (message: String)
        ensures
            message@ == self.turn(),
    {
        let mut message = "Your previous reply could not be parsed as JSON (".to_owned();
        message.append(self.parse_error.as_str());
        message.append("). Here it is:\n\n");
        message.append(self.previous_output.as_str());
        message.append(
            "\n\nReply again with only the JSON value, conforming to the schema. No prose, no markdown fences.",
        );
        message
    }
}

/// A reply as it is shown to the model again: cut off where it is long.
pub open spec fn shortened(reply: Seq<char>) -> Seq<char> {
    if reply.len() <= PROMPT_LIMIT {
        reply
    } else {
        head(reply, PROMPT_LIMIT as nat) + "\u{2026} (truncated)"@
    }
}

/// A bad reply in short: all of it would double the cost of the repair for
/// nothing.
pub fn truncate_for_prompt(text: &str) -> (short: String)
    ensures
        short@ == shortened(text@),
{
    if text.unicode_len() <= PROMPT_LIMIT {
        return text.to_owned();
    }
    let mut short = take_chars(text, PROMPT_LIMIT);
    short.append("\u{2026} (truncated)");
    short
}

/// What follows the first line feed; everything, where there is none.
pub open spec fn after_first_line(s: Seq<char>) -> Seq<char>
    decreases s.len(),
{
    after_line_feed(s, s)
}

pub open spec fn after_line_feed(s: Seq<char>, whole: Seq<char>) -> Seq<char>
    decreases s.len(),
{
    if s.len() == 0 {
        whole
    } else if s[0] == '\n' {
        s.drop_first()
    } else {
        after_line_feed(s.drop_first(), whole)
    }
}

/// A text without the markdown fence around it, if it begins with one: the
/// line of the opening fence and the closing fence are dropped.
pub open spec fn unfenced(text: Seq<char>) -> Seq<char> {
    if !has_prefix(text, "```"@) {
        text
    } else {
        let body = after_first_line(text.skip("```"@.len() as int));
        let ended = trimmed_end(body);
        if has_suffix(ended, "```"@) {
            trimmed(ended.take(ended.len() - "```"@.len()))
        } else {
            trimmed(body)
        }
    }
}

fn skip_first_line(text: &str) -> (rest: String)
    ensures
        rest@ == after_first_line(text@),
{
    let chars = chars_of(text);
    let mut i: usize = 0;
    assert(chars@.skip(0) =~= chars@);
    while i < chars.len()
        invariant
            0 <= i <= chars@.len(),
            chars@ == text@,
            after_first_line(text@) == after_line_feed(chars@.skip(i as int), text@),
        decreases chars@.len() - i,
    {
        let ghost rest = chars@.skip(i as int);
        proof {
            assert(rest[0] == chars@[i as int]);
            assert(rest.drop_first() =~= chars@.skip(i + 1));
        }
        if chars[i] == '\n' {
            assert(chars@.subrange(i + 1, chars@.len() as int) =~= chars@.skip(i + 1));
            return text_of_range(&chars, i + 1, chars.len());
        }
        i += 1;
    }
    assert(chars@.skip(chars@.len() as int) =~= Seq::empty());
    text.to_owned()
}

/// The text without a markdown fence around it.
pub fn strip_code_fence(text: &str) -> (inside: String)
    ensures
        inside@ == unfenced(text@),
{
    let rest = match strip_prefix(text, "```") {
        Some(rest) => rest,
        None => return text.to_owned(),
    };
    let body = skip_first_line(rest.as_str());
    match strip_suffix(trim_end(body.as_str()).as_str(), "```") {
        Some(inner) => trim(inner.as_str()),
        None => trim(body.as_str()),
    }
}

/// Where a scan for the end of a value stands.
pub struct Scan {
    pub depth: nat,
    pub in_string: bool,
    pub escaped: bool,
}

/// The scan after one more character, where `open` and `close` nest.
pub open spec fn scanned(scan: Scan, c: char, open: char, close: char) -> Scan {
    if scan.in_string {
        if scan.escaped {
            Scan { escaped: false, ..scan }
        } else if c == '\\' {
            Scan { escaped: true, ..scan }
        } else if c == '"' {
            Scan { in_string: false, ..scan }
        } else {
            scan
        }
    } else if c == '"' {
        Scan { in_string: true, ..scan }
    } else if c == open {
        Scan { depth: scan.depth + 1, ..scan }
    } else if c == close && scan.depth > 0 {
        Scan { depth: (scan.depth - 1) as nat, ..scan }
    } else {
        scan
    }
}

/// How many characters of `s` it takes until everything opened is closed, if
/// it ever is.
pub open spec fn closing(s: Seq<char>, scan: Scan, open: char, close: char) -> Option<nat>
    decreases s.len(),
{
    if s.len() == 0 {
        None
    } else {
        let next = scanned(scan, s[0], open, close);
        if next.depth == 0 {
            Some(1)
        } else {
            match closing(s.drop_first(), next, open, close) {
                Some(n) => Some(n + 1),
                None => None,
            }
        }
    }
}

pub open spec fn is_opening(c: char) -> bool {
    c == '{' || c == '['
}

pub open spec fn closer_of(open: char) -> char {
    if open == '{' {
        '}'
    } else {
        ']'
    }
}

/// The first region of a text that an opening bracket begins and its match
/// ends, what is inside strings not counting.
pub open spec fn first_region(s: Seq<char>) -> Option<Seq<char>>
    decreases s.len(),
{
    if s.len() == 0 {
        None
    } else if is_opening(s[0]) {
        match closing(
            s,
            Scan { depth: 0, in_string: false, escaped: false },
            s[0],
            closer_of(s[0]),
        ) {
            Some(n) => Some(s.take(n as int)),
            None => None,
        }
    } else {
        first_region(s.drop_first())
    }
}

proof fn lemma_closing_bound(s: Seq<char>, scan: Scan, open: char, close: char)
    ensures
        closing(s, scan, open, close) is Some ==> 1 <= closing(s, scan, open, close)->0 <= s.len(),
    decreases s.len(),
{
    if s.len() > 0 {
        lemma_closing_bound(s.drop_first(), scanned(scan, s[0], open, close), open, close);
    }
}

/// The first value in a text with balanced brackets: enough to rescue one
/// that a sentence comes before.
pub fn first_json_value(text: &str) -> (value: Option<String>)
    ensures
        match value {
            Some(v) => first_region(text@) == Some(v@),
            None => first_region(text@) is None,
        },
{
    let chars = chars_of(text);
    let mut start: usize = 0;
    assert(chars@.skip(0) =~= chars@);
    while start < chars.len() && chars[start] != '{' && chars[start] != '['
        invariant
            0 <= start <= chars@.len(),
            chars@ == text@,
            first_region(text@) == first_region(chars@.skip(start as int)),
        decreases chars@.len() - start,
    {
        proof {
            let rest = chars@.skip(start as int);
            assert(rest[0] == chars@[start as int]);
            assert(rest.drop_first() =~= chars@.skip(start + 1));
        }
        start += 1;
    }
    if start == chars.len() {
        assert(chars@.skip(start as int) =~= Seq::empty());
        return None;
    }
    let open: char = chars[start];
    let close: char = if open == '{' {
        '}'
    } else {
        ']'
    };
    let ghost region = chars@.skip(start as int);
    let ghost begun = Scan { depth: 0, in_string: false, escaped: false };
    let ghost whole = closing(region, begun, open, close);
    let mut depth: usize = 0;
    let mut in_string: bool = false;
    let mut escaped: bool = false;
    let mut i: usize = start;
    proof {
        assert(region[0] == open);
        assert(first_region(text@) == match whole {
            Some(n) => Some(region.take(n as int)),
            None => None,
        });
    }
    while i < chars.len()
        invariant
            start <= i <= chars@.len(),
            start < chars@.len(),
            depth <= i - start,
            i > start ==> depth > 0,
            chars@ == text@,
            region == chars@.skip(start as int),
            open == chars@[start as int],
            is_opening(open),
            close == closer_of(open),
            whole == closing(region, begun, open, close),
            begun == (Scan { depth: 0, in_string: false, escaped: false }),
            i == start ==> !in_string && !escaped && depth == 0,
            first_region(text@) == (match whole {
                Some(n) => Some(region.take(n as int)),
                None => None,
            }),
            whole == (match closing(
                chars@.skip(i as int),
                Scan { depth: depth as nat, in_string, escaped },
                open,
                close,
            ) {
                Some(n) => Some((n + (i - start)) as nat),
                None => None,
            }),
        decreases chars@.len() - i,
    {
        let c: char = chars[i];
        let ghost before = Scan { depth: depth as nat, in_string, escaped };
        let ghost rest = chars@.skip(i as int);
        proof {
            assert(rest[0] == c);
            assert(rest.drop_first() =~= chars@.skip(i + 1));
            assert(!is_opening('"') && open != '"' && close != open);
            assert(i == start ==> c == open);
        }
        let mut closed: bool = false;
        if in_string {
            if escaped {
                escaped = false;
            } else if c == '\\' {
                escaped = true;
            } else if c == '"' {
                in_string = false;
            }
        } else if c == '"' {
            in_string = true;
        } else if c == open {
            depth += 1;
        } else if c == close {
            depth -= 1;
            closed = depth == 0;
        }
        assert(scanned(before, c, open, close) == Scan {
            depth: depth as nat,
            in_string,
            escaped,
        });
        if closed {
            proof {
                assert(closing(rest, before, open, close) == Some(1nat));
                assert(whole == Some((i - start + 1) as nat));
                assert(region.take(i - start + 1) =~= chars@.subrange(start as int, i + 1));
            }
            return Some(text_of_range(&chars, start, i + 1));
        }
        assert(depth > 0);
        i += 1;
    }
    assert(chars@.skip(chars@.len() as int) =~= Seq::empty());
    None
}

/// The document of a reply, if it has one: the text without a fence, or else
/// the first region with balanced brackets in it.
pub open spec fn reply_document(raw: Seq<char>) -> Option<JsonTree> {
    let inside = unfenced(trimmed(raw));
    match json_parse(inside) {
        Some(tree) => Some(tree),
        None => match first_region(inside) {
            Some(region) => json_parse(region),
            None => None,
        },
    }
}

/// What is said of a reply that has no document.
pub open spec fn reply_complaint(raw: Seq<char>) -> Seq<char> {
    json_complaint(unfenced(trimmed(raw)))
}

/// The document of a reply, forgiving the two things that models do to JSON
/// even when told not to: a fence around it and a sentence before it.
pub fn parse_json(raw: &str) -> (parsed: Result<serde_json::Value, String>)
    ensures
        match parsed {
            Ok(value) => reply_document(raw@) == Some(json_tree(value)),
            Err(sentence) => reply_document(raw@) is None && sentence@ == reply_complaint(raw@),
        },
{
    let inside = strip_code_fence(trim(raw).as_str());
    let sentence = match parse_document(inside.as_str()) {
        Ok(value) => return Ok(value),
        Err(sentence) => sentence,
    };
    match first_json_value(inside.as_str()) {
        Some(region) => match parse_document(region.as_str()) {
            Ok(value) => Ok(value),
            Err(_) => Err(sentence),
        },
        None => Err(sentence),
    }
}

/// What follows a reply to the question.
#[derive(Debug)]
pub enum StructuredStep {
    /// Ask again, with this hint.
    Repair(RepairHint),
    Done(ChatResult<serde_json::Value>),
}

/// What follows the first reply. A failed call is not repaired: it stays what
/// it is.
pub fn first_reply(reply: ChatResult<String>) -> (step: StructuredStep)
    ensures
        match reply {
            Err(error) => step == StructuredStep::Done(Err(error)),
            Ok(text) => match step {
                StructuredStep::Done(answer) => answer matches Ok(value) && reply_document(text@)
                    == Some(json_tree(value)),
                StructuredStep::Repair(hint) => reply_document(text@) is None
                    && hint.previous_output@ == shortened(text@) && hint.parse_error@
                    == reply_complaint(text@),
            },
        },
{
    match reply {
        Err(error) => StructuredStep::Done(Err(error)),
        Ok(text) => match parse_json(text.as_str()) {
            Ok(value) => StructuredStep::Done(Ok(value)),
            Err(sentence) => StructuredStep::Repair(
                RepairHint {
                    previous_output: truncate_for_prompt(text.as_str()),
                    parse_error: sentence,
                },
            ),
        },
    }
}

/// What follows the reply to the hint: the answer or the error, never a third
/// question.
pub fn second_reply(hint: &RepairHint, reply: ChatResult<String>) -> (answer: ChatResult<
    serde_json::Value,
>)
    ensures
        match reply {
            Err(error) => answer == Err::<serde_json::Value, ChatError>(error),
            Ok(text) => match answer {
                Ok(value) => reply_document(text@) == Some(json_tree(value)),
                Err(error) => reply_document(text@) is None && error is Malformed && error.text()
                    == "unparseable JSON after one repair attempt (first: "@ + hint.parse_error@
                    + "; second: "@ + reply_complaint(text@) + ")"@,
            },
        },
{
    match reply {
        Err(error) => Err(error),
        Ok(text) => match parse_json(text.as_str()) {
            Ok(value) => Ok(value),
            Err(second) => {
                let mut sentence =
                    "unparseable JSON after one repair attempt (first: ".to_owned();
                sentence.append(hint.parse_error.as_str());
                sentence.append("; second: ");
                sentence.append(second.as_str());
                sentence.append(")");
                Err(ChatError::Malformed(sentence))
            },
        },
    }
}

/// A region begins with a bracket and lies inside the text.
pub proof fn regions_begin_with_a_bracket(s: Seq<char>)
    ensures
        match first_region(s) {
            Some(region) => region.len() >= 1 && is_opening(region[0]) && exists|from: int, to: int|
                0 <= from <= to <= s.len() && region == #[trigger] s.subrange(from, to),
            None => true,
        },
    decreases s.len(),
{
    if s.len() > 0 {
        if is_opening(s[0]) {
            let begun = Scan { depth: 0, in_string: false, escaped: false };
            lemma_closing_bound(s, begun, s[0], closer_of(s[0]));
            if closing(s, begun, s[0], closer_of(s[0])) is Some {
                let n = closing(s, begun, s[0], closer_of(s[0]))->0;
                assert(s.take(n as int) =~= s.subrange(0, n as int));
                assert(s.subrange(0, n as int)[0] == s[0]);
            }
        } else {
            let rest = s.drop_first();
            regions_begin_with_a_bracket(rest);
            if first_region(rest) is Some {
                let region = first_region(rest)->0;
                let (from, to) = choose|from: int, to: int|
                    0 <= from <= to <= rest.len() && region == #[trigger] rest.subrange(from, to);
                assert(s.subrange(from + 1, to + 1) =~= region);
            }
        }
    }
}

/// A reply that is a document is taken as it is, whatever it says.
pub proof fn clean_replies_need_no_repair(reply: Seq<char>)
    requires
        !has_prefix(trimmed(reply), "```"@),
        json_parse(trimmed(reply)) is Some,
    ensures
        reply_document(reply) == json_parse(trimmed(reply)),
{
}

/// A reply is shown again as far as the limit goes, and what is left out is
/// said.
pub proof fn long_replies_are_cut(reply: Seq<char>)
    ensures
        reply.len() <= 2_000 ==> shortened(reply) == reply,
        reply.len() > 2_000 ==> shortened(reply) == reply.take(2_000) + "\u{2026} (truncated)"@,
{
}

proof fn lemma_line_skipped(line: Seq<char>, rest: Seq<char>, whole: Seq<char>)
    requires
        forall|i: int| 0 <= i < line.len() ==> #[trigger] line[i] != '\n',
    ensures
        after_line_feed(line + seq!['\n'] + rest, whole) == rest,
    decreases line.len(),
{
    let all = line + seq!['\n'] + rest;
    if line.len() == 0 {
        assert(all[0] == '\n');
        assert(all.drop_first() =~= rest);
    } else {
        let shorter = line.drop_first();
        assert(all[0] == line[0]);
        assert(all.drop_first() =~= shorter + seq!['\n'] + rest);
        assert forall|i: int| 0 <= i < shorter.len() implies #[trigger] shorter[i] != '\n' by {
            assert(shorter[i] == line[i + 1]);
        }
        lemma_line_skipped(shorter, rest, whole);
    }
}

/// A fence goes, with whatever the line that opens it says, and what it holds
/// stays; a text without one stays as it is.
pub proof fn fences_are_taken_off(language: Seq<char>, body: Seq<char>, text: Seq<char>)
    requires
        forall|i: int| 0 <= i < language.len() ==> #[trigger] language[i] != '\n',
    ensures
        unfenced("```"@ + language + seq!['\n'] + body + "```"@) == trimmed(body),
        !has_prefix(text, "```"@) ==> unfenced(text) == text,
{
    reveal_strlit("```");
    let fence = "```"@;
    let all = fence + language + seq!['\n'] + body + fence;
    assert(all.take(3) =~= fence);
    let rest = all.skip(3);
    let inner = body + fence;
    assert(rest =~= language + seq!['\n'] + inner);
    lemma_line_skipped(language, inner, rest);
    assert(inner.last() == '`');
    assert(!crate::text::white()('`'));
    assert(trimmed_end(inner) == inner);
    assert(inner.skip(inner.len() - 3) =~= fence);
    assert(inner.take(inner.len() - 3) =~= body);
}

/// A document inside a fence is read as if the fence were not there.
pub proof fn fenced_documents_are_read(language: Seq<char>, body: Seq<char>, raw: Seq<char>)
    requires
        forall|i: int| 0 <= i < language.len() ==> #[trigger] language[i] != '\n',
        trimmed(raw) == "```"@ + language + seq!['\n'] + body + "```"@,
        json_parse(trimmed(body)) is Some,
    ensures
        reply_document(raw) == json_parse(trimmed(body)),
{
    fences_are_taken_off(language, body, raw);
}

/// A sentence before a document does not keep it from being read: what holds no
/// bracket is passed over.
pub proof fn sentences_are_passed_over(sentence: Seq<char>, rest: Seq<char>)
    requires
        forall|i: int| 0 <= i < sentence.len() ==> !is_opening(#[trigger] sentence[i]),
    ensures
        first_region(sentence + rest) == first_region(rest),
    decreases sentence.len(),
{
    let all = sentence + rest;
    if sentence.len() == 0 {
        assert(all =~= rest);
    } else {
        let shorter = sentence.drop_first();
        assert(all[0] == sentence[0]);
        assert(all.drop_first() =~= shorter + rest);
        assert forall|i: int| 0 <= i < shorter.len() implies !is_opening(#[trigger] shorter[i]) by {
            assert(shorter[i] == sentence[i + 1]);
        }
        sentences_are_passed_over(shorter, rest);
    }
}

/// Where a scan stands after all of a text.
pub open spec fn scanned_all(s: Seq<char>, scan: Scan, open: char, close: char) -> Scan
    decreases s.len(),
{
    if s.len() == 0 {
        scan
    } else {
        scanned_all(s.drop_first(), scanned(scan, s[0], open, close), open, close)
    }
}

proof fn lemma_closing_is_first(s: Seq<char>, scan: Scan, open: char, close: char)
    ensures
        match closing(s, scan, open, close) {
            Some(n) => 1 <= n <= s.len() && scanned_all(s.take(n as int), scan, open, close).depth
                == 0 && forall|k: int|
                1 <= k < n ==> #[trigger] scanned_all(s.take(k), scan, open, close).depth > 0,
            None => forall|k: int|
                1 <= k <= s.len() ==> #[trigger] scanned_all(s.take(k), scan, open, close).depth > 0,
        },
    decreases s.len(),
{
    if s.len() > 0 {
        let rest = s.drop_first();
        let next = scanned(scan, s[0], open, close);
        lemma_closing_is_first(rest, next, open, close);
        assert forall|k: int| 1 <= k <= s.len() implies #[trigger] scanned_all(
            s.take(k),
            scan,
            open,
            close,
        ) == scanned_all(rest.take(k - 1), next, open, close) by {
            assert(s.take(k)[0] == s[0]);
            assert(s.take(k).drop_first() =~= rest.take(k - 1));
        }
        assert(rest.take(0) =~= Seq::empty());
        assert(scanned_all(rest.take(0), next, open, close) == next);
        if next.depth == 0 {
            assert(scanned_all(s.take(1), scan, open, close).depth == 0);
        } else {
            match closing(rest, next, open, close) {
                Some(n) => {
                    assert(scanned_all(s.take(n as int + 1), scan, open, close).depth == 0);
                },
                None => {},
            }
        }
    }
}

/// A region ends where everything that it opened is closed for the first time.
pub proof fn regions_end_where_all_is_closed(s: Seq<char>)
    requires
        s.len() > 0,
        is_opening(s[0]),
    ensures
        ({
            let begun = Scan { depth: 0, in_string: false, escaped: false };
            match first_region(s) {
                Some(region) => region.is_prefix_of(s) && region.len() > 0 && scanned_all(
                    region,
                    begun,
                    s[0],
                    closer_of(s[0]),
                ).depth == 0 && forall|k: int|
                    1 <= k < region.len() ==> #[trigger] scanned_all(
                        s.take(k),
                        begun,
                        s[0],
                        closer_of(s[0]),
                    ).depth > 0,
                None => forall|k: int|
                    1 <= k <= s.len() ==> #[trigger] scanned_all(
                        s.take(k),
                        begun,
                        s[0],
                        closer_of(s[0]),
                    ).depth > 0,
            }
        }),
{
    let begun = Scan { depth: 0, in_string: false, escaped: false };
    lemma_closing_is_first(s, begun, s[0], closer_of(s[0]));
    if let Some(region) = first_region(s) {
        assert(region =~= s.subrange(0, region.len() as int));
    }
}

/// Outside a string a bracket opens or closes and a quotation mark begins one;
/// inside one brackets do not count, and a quotation mark ends it unless a
/// backslash stands before it.
pub proof fn brackets_in_strings_do_not_count(scan: Scan, c: char, open: char, close: char)
    requires
        open != close,
        open != '"' && close != '"',
    ensures
        scan.in_string ==> scanned(scan, c, open, close).depth == scan.depth,
        scan.in_string ==> (scanned(scan, c, open, close).in_string <==> scan.escaped || c != '"'),
        scan.in_string ==> (scanned(scan, c, open, close).escaped <==> !scan.escaped && c == '\\'),
        !scan.in_string ==> (scanned(scan, c, open, close).in_string <==> c == '"'),
        !scan.in_string && c == open ==> scanned(scan, c, open, close).depth == scan.depth + 1,
        !scan.in_string && c == close && scan.depth > 0 ==> scanned(scan, c, open, close).depth
            == scan.depth - 1,
        !scan.in_string && c != open && c != close ==> scanned(scan, c, open, close).depth
            == scan.depth,
        is_opening('{') && is_opening('[') && closer_of('{') == '}' && closer_of('[') == ']',
{
}

/// Where the text by itself is no document, its first region is read.
pub proof fn regions_are_read_where_the_text_is_not(raw: Seq<char>)
    requires
        !has_prefix(trimmed(raw), "```"@),
        json_parse(trimmed(raw)) is None,
    ensures
        first_region(trimmed(raw)) matches Some(region) ==> reply_document(raw) == json_parse(
            region,
        ),
        first_region(trimmed(raw)) is None ==> reply_document(raw) is None,
        reply_complaint(raw) == json_complaint(trimmed(raw)),
{
}

} // verus!
