//! What texts and answers are made of.

use vstd::prelude::*;

use crate::ansi;
use crate::ansi::{HighlightFile, Hyperlink, ScopeColor};
use crate::failure::{RequestError, StatusCode};
use crate::hexkey;
use crate::imports;
use crate::imports::{CacheSlot, DecisionView, HurlinImportArgs, ImportDecision, SlotView};
use crate::laws::calls;
use crate::paths;
use crate::replies;
use crate::replies::{CacheEntry, Outcome, Response, TypedBody};
use crate::report;
use crate::text;
use crate::text::Render;

verus! {

/// The number that a lower-case hexadecimal digit stands for.
pub open spec fn hex_value(c: char) -> int {
    if c as int <= 57 {
        c as int - 48
    } else {
        c as int - 87
    }
}

/// A lower-case hexadecimal digit.
pub open spec fn is_lower_hex(c: char) -> bool {
    48 <= c as int <= 57 || 97 <= c as int <= 102
}

/// Bytes in hexadecimal read back as themselves: two lower-case digits each, the high one first.
pub proof fn law_hex_reads_back(data: Seq<u8>, i: int)
    ensures
        hexkey::hex_text(data).len() == 2 * data.len(),
        0 <= i < data.len() ==> {
            let high = hexkey::hex_text(data)[2 * i];
            let low = hexkey::hex_text(data)[2 * i + 1];
            &&& is_lower_hex(high)
            &&& is_lower_hex(low)
            &&& 16 * hex_value(high) + hex_value(low) == data[i]
        },
{
}

/// Every eight bytes can be drawn for a key, and what is drawn is sixteen lower-case digits.
pub proof fn law_drawn_keys(data: [u8; 8], text: Seq<char>, i: int)
    ensures
        hexkey::is_drawn(hexkey::hex_text(data@)),
        hexkey::is_drawn(text) ==> text.len() == 16,
        hexkey::is_drawn(text) && 0 <= i < 16 ==> is_lower_hex(text[i]),
{
    if hexkey::is_drawn(text) {
        let drawn = choose|drawn: [u8; 8]| text == #[trigger] hexkey::hex_text(drawn@);
        law_hex_reads_back(drawn@, i / 2);
    }
}

/// A key is spelled by sixteen hexadecimal digits of either case, and by nothing else.
pub proof fn law_key_texts(text: Seq<char>)
    ensures
        hexkey::is_key_text(text) <==> {
            &&& text.len() == 16
            &&& forall|i: int|
                #![trigger text[i]]
                0 <= i < 16 ==> {
                    ||| 48 <= text[i] as int <= 57
                    ||| 65 <= text[i] as int <= 70
                    ||| 97 <= text[i] as int <= 102
                }
        },
{
}

/// Lists of strings are read string by string, and optional strings as they are.
pub proof fn law_lists_are_spelled_out(
    list: Seq<String>,
    parameters: Seq<(String, String)>,
    some: String,
    i: int,
)
    ensures
        text::texts(list).len() == list.len(),
        0 <= i < list.len() ==> text::texts(list)[i] == list[i]@,
        imports::names(parameters).len() == parameters.len(),
        0 <= i < parameters.len() ==> imports::names(parameters)[i] == parameters[i].0@,
        text::optional(Some(some)) == Some(some@),
        text::optional(None) is None,
{
}

/// ASCII bytes spell one character each, that of their number.
pub proof fn law_bytes_are_spelled_out(bytes: Seq<u8>, i: int)
    ensures
        text::spelled(bytes).len() == bytes.len(),
        0 <= i < bytes.len() ==> text::spelled(bytes)[i] as int == bytes[i] as int,
{
}

/// Exports and answers are seen whole: every byte of the body, and every byte of the content type,
/// where there is one.
pub proof fn law_answers_are_seen_whole(export: TypedBody, response: Response)
    ensures
        replies::optional(export.1) is Some <==> export.1 is Some,
        export.1 is Some ==> replies::optional(export.1)->0 == export.1->0@,
        export@.0 == export.0@,
        export@.1 is Some <==> export.1 is Some,
        export.1 is Some ==> export@.1->0 == export.1->0@,
        response@.1 == response.body@,
        response@.0 is Some <==> response.content_type is Some,
        response.content_type is Some ==> response@.0->0 == response.content_type->0@,
{
}

/// What is kept of a task, in the cache and for those who await it, is seen whole as well.
pub proof fn law_outcomes_are_seen_whole(
    export: TypedBody,
    response: Response,
    status: StatusCode,
    outcome: Outcome,
)
    ensures
        replies::entry_view(Ok(Some(export))) == Ok::<
            Option<(Seq<u8>, Option<Seq<u8>>)>,
            StatusCode,
        >(Some(export@)),
        replies::entry_view(Ok(None)) == Ok::<Option<(Seq<u8>, Option<Seq<u8>>)>, StatusCode>(None),
        replies::entry_view(Err(status)) == Err::<
            Option<(Seq<u8>, Option<Seq<u8>>)>,
            StatusCode,
        >(status),
        replies::outcome_view(Ok(response)) == Ok::<(Option<Seq<u8>>, Seq<u8>), StatusCode>(
            response@,
        ),
        replies::outcome_view(Err(status)) == Err::<(Option<Seq<u8>>, Seq<u8>), StatusCode>(status),
        replies::ended_view(Some(outcome)) == Some(replies::outcome_view(outcome)),
        replies::ended_view(None) is None,
{
}

/// What the cache holds, and what is decided, are seen as they are.
pub proof fn law_decisions_are_seen_whole<L>(
    queue: Vec<L>,
    entry: CacheEntry,
    response: Response,
    status: StatusCode,
)
    ensures
        CacheSlot::Running(queue)@ == SlotView::Running(queue@),
        CacheSlot::<L>::Done(entry)@ == SlotView::<L>::Done(replies::entry_view(entry)),
        ImportDecision::Reply(response)@ == DecisionView::Reply(response@),
        ImportDecision::Refuse(status)@ == DecisionView::Refuse(status),
        ImportDecision::Wait@ == DecisionView::Wait,
        ImportDecision::Run@ == DecisionView::Run,
{
}

/// An export is mirrored byte for byte, with its own content type and no other; where nothing was
/// exported, the answer is empty and has none.
pub proof fn law_mirrors(body: Seq<u8>, mime: Option<Seq<u8>>)
    ensures
        replies::mirrored(Some((body, mime))).1 == body,
        replies::mirrored(Some((body, mime))).0 == mime,
        replies::mirrored(None).1.len() == 0,
        replies::mirrored(None).0 is None,
{
}

/// An import waits exactly for a file that is being run, and only through the cache. It is answered
/// without a run exactly where the file has run, and then with what the file came to. In every other
/// case the file is run.
pub proof fn law_imports_are_decided<L>(args: HurlinImportArgs, slot: Option<SlotView<L>>)
    ensures
        imports::decision(args, slot) is Wait <==> args == HurlinImportArgs::Normal && slot is Some
            && slot->0 is Running,
        imports::decision(args, slot) is Run <==> args == HurlinImportArgs::Nocache || slot is None,
        args == HurlinImportArgs::Normal ==> (slot matches Some(SlotView::Done(Ok(Some(export))))
            ==> imports::decision(args, slot) matches DecisionView::Reply(answer) && answer.0
            == export.1 && answer.1 == export.0),
        args == HurlinImportArgs::Normal ==> (slot matches Some(SlotView::Done(Ok(None)))
            ==> imports::decision(args, slot) matches DecisionView::Reply(answer) && answer.0 is None
            && answer.1.len() == 0),
        args == HurlinImportArgs::Normal ==> (slot matches Some(SlotView::Done(Err(status)))
            ==> imports::decision(args, slot) matches DecisionView::Refuse(refused) && refused
            == status),
{
}

/// A refusal is answered by its reason alone, whatever it carries: a wrong session key is forbidden,
/// a task that is gone unauthorized, a file that cannot be had an error of the server, a cycle or a
/// failed task a failed dependency; all else is a bad request.
pub proof fn law_statuses(error: RequestError)
    ensures
        error.answer().number() == 403 <==> error is WrongHurlinKey,
        error.answer().number() == 401 <==> error is NotRunning,
        error.answer().number() == 500 <==> error is NotCanonical || error is InternerFull,
        error.answer().number() == 424 <==> error is ImportCycle || error is TaskFailed,
        error.answer().number() == 400 || error.answer().number() == 401
            || error.answer().number() == 403 || error.answer().number() == 424
            || error.answer().number() == 500,
        StatusCode::BadRequest.number() == 400,
        StatusCode::Unauthorized.number() == 401,
        StatusCode::Forbidden.number() == 403,
        StatusCode::FailedDependency.number() == 424,
        StatusCode::InternalServerError.number() == 500,
{
}

/// `part` stands in `whole` at the position `at`.
pub open spec fn stands_at(whole: Seq<char>, at: int, part: Seq<char>) -> bool {
    &&& 0 <= at
    &&& at + part.len() <= whole.len()
    &&& whole.subrange(at, at + part.len() as int) == part
}

/// A JSON object with one member opens with a brace and the name in quotes, goes on with a colon and
/// the value in quotes, and closes with a brace. It is answered as JSON.
pub proof fn law_json_answers(name: Seq<char>, value: Seq<char>)
    ensures
        ({
            let object = replies::json_object(name, value);
            let n = name.len() as int;
            &&& object.len() == name.len() + value.len() + 7
            &&& object[0] == '{' && object[1] == '"'
            &&& stands_at(object, 2, name)
            &&& object[n + 2] == '"' && object[n + 3] == ':' && object[n + 4] == '"'
            &&& stands_at(object, n + 5, value)
            &&& object[object.len() - 2] == '"' && object.last() == '}'
        }),
        replies::json_reply(name, value).0 == Some(vstd::utf8::encode_utf8("application/json"@)),
        replies::json_reply(name, value).1 == vstd::utf8::encode_utf8(
            replies::json_object(name, value),
        ),
{
    reveal_strlit("{\"");
    reveal_strlit("\":\"");
    reveal_strlit("\"}");
    let object = replies::json_object(name, value);
    let n = name.len() as int;
    assert(object.subrange(2, 2 + n) =~= name);
    assert(object.subrange(n + 5, n + 5 + value.len() as int) =~= value);
}

/// A link opens with its address, closes without one, and shows its text in between.
pub proof fn law_links_show_their_text(address: Seq<char>, shown: Seq<char>)
    ensures
        ({
            let link = ansi::linked_text(address, shown);
            let a = address.len() as int;
            let n = shown.len() as int;
            &&& link.len() == a + n + 14
            &&& stands_at(link, 0, "\x1b]8;;"@)
            &&& stands_at(link, 5, address)
            &&& stands_at(link, a + 5, "\x1b\\"@)
            &&& stands_at(link, a + 7, shown)
            &&& stands_at(link, a + n + 7, "\x1b]8;;\x1b\\"@)
        }),
{
    reveal_strlit("\x1b]8;;");
    reveal_strlit("\x1b\\");
    reveal_strlit("\x1b]8;;\x1b\\");
    let link = ansi::linked_text(address, shown);
    let a = address.len() as int;
    let n = shown.len() as int;
    assert(link.subrange(0, 5) =~= "\x1b]8;;"@);
    assert(link.subrange(5, 5 + a) =~= address);
    assert(link.subrange(a + 5, a + 7) =~= "\x1b\\"@);
    assert(link.subrange(a + 7, a + 7 + n) =~= shown);
    assert(link.subrange(a + n + 7, a + n + 14) =~= "\x1b]8;;\x1b\\"@);
}

/// The address of a file is its scheme, the machine and the path, with nothing in between.
pub proof fn law_file_addresses(host: Seq<char>, path: Seq<char>)
    ensures
        ({
            let address = ansi::file_address(host, path);
            &&& address.len() == 7 + host.len() + path.len()
            &&& stands_at(address, 0, "file://"@)
            &&& stands_at(address, 7, host)
            &&& stands_at(address, 7 + host.len() as int, path)
        }),
{
    reveal_strlit("file://");
    let address = ansi::file_address(host, path);
    let n = host.len() as int;
    assert(address.subrange(0, 7) =~= "file://"@);
    assert(address.subrange(7, 7 + n) =~= host);
    assert(address.subrange(7 + n, 7 + n + path.len() as int) =~= path);
}

/// A coloured text opens with its colour, holds the text whole, and ends with the colours reset.
pub proof fn law_colours(colour: Seq<char>, shown: Seq<char>)
    ensures
        ({
            let coloured = ansi::coloured(colour, shown);
            let c = colour.len() as int;
            let n = shown.len() as int;
            &&& coloured.len() == c + n + 7
            &&& stands_at(coloured, 0, "\x1b["@)
            &&& stands_at(coloured, 2, colour)
            &&& coloured[c + 2] == 'm'
            &&& stands_at(coloured, c + 3, shown)
            &&& stands_at(coloured, c + n + 3, "\x1b[0m"@)
        }),
{
    reveal_strlit("\x1b[");
    reveal_strlit("m");
    reveal_strlit("\x1b[0m");
    let coloured = ansi::coloured(colour, shown);
    let c = colour.len() as int;
    let n = shown.len() as int;
    assert(coloured.subrange(0, 2) =~= "\x1b["@);
    assert(coloured.subrange(2, 2 + c) =~= colour);
    assert(coloured.subrange(c + 3, c + 3 + n) =~= shown);
    assert(coloured.subrange(c + n + 3, c + n + 7) =~= "\x1b[0m"@);
}

/// Texts are written as they are, and numbers in decimal.
pub proof fn law_plain_values_are_written(owned: String, borrowed: &str, number: u64)
    ensures
        owned.rendered() == owned@,
        borrowed.rendered() == borrowed@,
        calls::is_decimal(number.rendered()),
        calls::read_decimal(number.rendered()) == number,
{
    calls::law_decimals_read_back(number as nat);
}

/// What is shown in a terminal is written from its parts: a link from its address and its text, a
/// path from itself and its colour, a coloured text from both.
pub proof fn law_shown_values_are_written<H: Render, T: Render, A: Render>(
    link: Hyperlink<H, T>,
    file: HighlightFile<'_, A>,
    scope: ScopeColor<'_>,
)
    ensures
        link.rendered() == ansi::linked_text(link.address().rendered(), link.shown().rendered()),
        file.rendered() == ansi::highlighted(
            file.0@,
            paths::file_name_of(file.0@),
            paths::parent_of(file.0@),
            file.1.rendered(),
        ),
        scope.rendered() == ansi::coloured(scope.colour(), scope.shown()),
{
}

/// A highlighted path is its directory, a slash, and the name of the file in its colour; a path
/// without either is left alone.
pub proof fn law_highlights(path: Seq<char>, file: Seq<char>, parent: Seq<char>, colour: Seq<char>)
    ensures
        ({
            let shown = ansi::highlighted(path, Some(file), Some(parent), colour);
            let n = parent.len() as int;
            &&& shown.len() == n + 1 + ansi::coloured(colour, file).len()
            &&& stands_at(shown, 0, parent)
            &&& shown[n] == '/'
            &&& stands_at(shown, n + 1, ansi::coloured(colour, file))
        }),
        ansi::highlighted(path, None, Some(parent), colour) == path,
        ansi::highlighted(path, Some(file), None, colour) == path,
        ansi::highlighted(path, None, None, colour) == path,
{
    reveal_strlit("/\x1b[");
    reveal_strlit("\x1b[");
    let shown = ansi::highlighted(path, Some(file), Some(parent), colour);
    let n = parent.len() as int;
    let coloured = ansi::coloured(colour, file);
    assert(shown.subrange(0, n) =~= parent);
    assert(shown.subrange(n + 1, n + 1 + coloured.len() as int) =~= coloured);
}

/// A cycle is reported in a line that says so, a line for the file that was to be imported, and a
/// line for each file of the chain, in its order: each a link to the file. The file at either end,
/// and no other, is highlighted.
pub proof fn law_cycle_reports(
    host: Seq<char>,
    imported: Seq<char>,
    chain: Seq<Seq<char>>,
    i: int,
)
    ensures
        ({
            let lines = report::cycle_lines(host, imported, chain);
            let marked = |path: Seq<char>|
                ansi::linked_text(
                    ansi::file_address(host, path),
                    ansi::highlighted(
                        path,
                        paths::file_name_of(path),
                        paths::parent_of(path),
                        "91"@,
                    ),
                );
            let plain = |path: Seq<char>|
                ansi::linked_text(ansi::file_address(host, path), path);
            &&& lines.len() == chain.len() + 2
            &&& lines[0] == ansi::coloured("93;1"@, "cycle detected in import chain:"@)
            &&& lines[1] == ansi::coloured("37"@, "Attempted to import"@) + " "@ + marked(imported)
            &&& 0 <= i < chain.len() ==> lines[i + 2] == ansi::coloured(
                "37"@,
                "...which is imported by"@,
            ) + " "@ + (if i + 1 == chain.len() {
                marked(chain[i])
            } else {
                plain(chain[i])
            })
        }),
{
    reveal_strlit("91");
    reveal_with_fuel(text::decimal, 2);
    assert(text::decimal(91) =~= "91"@);
}

} // verus!
