//! The request history: a file of JSON lines, one sent request per line.
use vstd::prelude::*;
use crate::error::{AppError, is_user_error};
use crate::models::{HermesRequest, HermesResponse, HistoryEntry, is_uuid_text, new_id};
use crate::paths::{history_file, join};
use crate::text::{blank, chars_of, is_blank, owned, split_on, split_pieces, str_eq, views};

verus! {

/// The history file of a workspace.
pub fn history_path(workspace_path: &str) -> (res: String)
    ensures
        res@ == history_file(workspace_path@),
{
    let dir = join(workspace_path, ".hermes");
    join(dir.as_str(), "history.jsonl")
}

/// A line without the carriage return before its line feed.
pub open spec fn strip_cr(s: Seq<char>) -> Seq<char> {
    if s.len() > 0 && s.last() == '\r' {
        s.drop_last()
    } else {
        s
    }
}

/// The lines of a text (`str::lines`, keeping a last empty line): split at
/// line feeds, each line that ended in one also losing a carriage return.
pub open spec fn text_lines(text: Seq<char>) -> Seq<Seq<char>> {
    let ps = split_on(text, '\n');
    ps.drop_last().map_values(|p: Seq<char>| strip_cr(p)).push(ps.last())
}

/// The lines that are not blank, in order.
pub open spec fn nonblank_lines(ls: Seq<Seq<char>>) -> Seq<Seq<char>>
    decreases ls.len(),
{
    if ls.len() == 0 {
        Seq::empty()
    } else if is_blank(ls.last()) {
        nonblank_lines(ls.drop_last())
    } else {
        nonblank_lines(ls.drop_last()).push(ls.last())
    }
}

fn without_cr(s: &str) -> (res: String)
    ensures
        res@ == strip_cr(s@),
{
    let cs = chars_of(s);
    if cs.len() > 0 && cs[cs.len() - 1] == '\r' {
        crate::text::string_of_range(&cs, 0, cs.len() - 1)
    } else {
        owned(s)
    }
}

/// The non-blank lines of the history file's contents, oldest first; each is
/// one entry in JSON.
pub fn history_lines(contents: &str) -> (res: Vec<String>)
    ensures
        views(res@) == nonblank_lines(text_lines(contents@)),
{
    let pieces = split_pieces(contents, '\n');
    proof {
        crate::text::lemma_split_on_nonempty(contents@, '\n');
    }
    let ghost lines = text_lines(contents@);
    let mut res: Vec<String> = Vec::new();
    let mut i: usize = 0;
    while i < pieces.len()
        invariant
            i <= pieces.len(),
            pieces.len() >= 1,
            views(pieces@) == split_on(contents@, '\n'),
            lines == text_lines(contents@),
            lines.len() == pieces.len(),
            views(res@) == nonblank_lines(lines.subrange(0, i as int)),
        decreases pieces.len() - i,
    {
        let line = if i + 1 < pieces.len() {
            without_cr(pieces[i].as_str())
        } else {
            owned(pieces[i].as_str())
        };
        proof {
            assert(line@ == lines[i as int]);
            assert(lines.subrange(0, i + 1).drop_last() == lines.subrange(0, i as int));
            assert(lines.subrange(0, i + 1).last() == lines[i as int]);
        }
        if !blank(line.as_str()) {
            res.push(line);
            assert(views(res@) == views(res@).drop_last().push(line@));
        }
        i += 1;
    }
    assert(lines.subrange(0, lines.len() as int) == lines);
    res
}

/// What appending an entry writes: its JSON text and a line feed.
pub open spec fn record_of(json: Seq<char>) -> Seq<char> {
    json.push('\n')
}

/// The line appended to the history file for an entry whose JSON text is `json`.
pub fn history_record(json: &str) -> (res: String)
    ensures
        res@ == record_of(json@),
{
    let mut res = owned(json);
    crate::text::push_char(&mut res, '\n');
    res
}

/// The JSON text of one entry as it is written: a single line, not blank,
/// not ending in a carriage return.
pub open spec fn is_record_text(j: Seq<char>) -> bool {
    &&& !is_blank(j)
    &&& forall|i: int| 0 <= i < j.len() ==> j[i] != '\n'
    &&& j.len() > 0 && j.last() != '\r'
}

/// Contents that only appends wrote: empty, or ending with a line feed.
pub open spec fn ends_with_line(c: Seq<char>) -> bool {
    c.len() == 0 || c.last() == '\n'
}

/// The lines of the history, oldest first: none when there is no history
/// file (`None`, as after clearing it), else its non-blank lines.
pub fn listed_lines(contents: Option<String>) -> (res: Vec<String>)
    ensures
        contents is None ==> res.len() == 0,
        contents matches Some(c) ==> views(res@) == nonblank_lines(text_lines(c@)),
{
    match contents {
        Some(c) => history_lines(c.as_str()),
        None => Vec::new(),
    }
}

/// Appending an entry to the history file adds its JSON text as the last
/// line that is listed, and leaves the file ending with a line feed.
pub proof fn lemma_append_then_list(contents: Seq<char>, json: Seq<char>)
    requires
        ends_with_line(contents),
        is_record_text(json),
    ensures
        ends_with_line(contents + record_of(json)),
        nonblank_lines(text_lines(contents + record_of(json))) == nonblank_lines(
            text_lines(contents),
        ).push(json),
{
    let c = contents;
    let j = json;
    crate::text::lemma_split_on_nonempty(c, '\n');
    let s = split_on(c, '\n');
    if c.len() > 0 {
        crate::text::lemma_split_on_nonempty(c.drop_last(), '\n');
    }
    assert(s.last() == Seq::<char>::empty());
    crate::text::lemma_split_extend(c, j, '\n');
    let s1 = split_on(c + j, '\n');
    assert(s1 == s.update(s.len() - 1, j)) by {
        assert(s.last() + j == j);
    }
    let full = c + record_of(j);
    assert(full == (c + j).push('\n'));
    assert(full.drop_last() == c + j);
    assert(full.last() == '\n');
    let ps = split_on(full, '\n');
    assert(ps == s1.push(Seq::<char>::empty()));
    let m = s.drop_last().map_values(|p: Seq<char>| strip_cr(p));
    assert(strip_cr(j) == j);
    assert(text_lines(full) =~= m.push(j).push(Seq::<char>::empty())) by {
        assert(ps.drop_last() == s1);
        assert(s1 =~= s.drop_last().push(j));
        assert(s.drop_last().push(j).map_values(|p: Seq<char>| strip_cr(p)) =~= m.push(
            strip_cr(j),
        ));
    }
    assert(text_lines(c) =~= m.push(Seq::<char>::empty()));
    let e = Seq::<char>::empty();
    assert(is_blank(e));
    assert(m.push(j).push(e).drop_last() == m.push(j));
    assert(m.push(e).drop_last() == m);
    assert(m.push(j).drop_last() == m);
    assert(nonblank_lines(m.push(e)) == nonblank_lines(m));
    assert(nonblank_lines(m.push(j)) == nonblank_lines(m).push(j));
    assert(nonblank_lines(m.push(j).push(e)) == nonblank_lines(m.push(j)));
}

/// Appending two entries and listing gives them newest first, before the
/// entries listed already; on a missing (or cleared) file, just the two.
pub proof fn lemma_append_twice_newest_first(
    contents: Seq<char>,
    first: Seq<char>,
    second: Seq<char>,
)
    requires
        ends_with_line(contents),
        is_record_text(first),
        is_record_text(second),
    ensures
        nonblank_lines(text_lines(contents + record_of(first) + record_of(second))).reverse()
            == seq![second, first] + nonblank_lines(text_lines(contents)).reverse(),
{
    lemma_append_then_list(contents, first);
    lemma_append_then_list(contents + record_of(first), second);
    let old_lines = nonblank_lines(text_lines(contents));
    assert(old_lines.push(first).push(second).reverse() =~= seq![second, first]
        + old_lines.reverse());
}

/// The entries newest first: the file holds them oldest first.
pub fn newest_first(entries: Vec<HistoryEntry>) -> (res: Vec<HistoryEntry>)
    ensures
        res@ == entries@.reverse(),
{
    let mut rest = entries;
    let ghost all = rest@;
    let mut res: Vec<HistoryEntry> = Vec::new();
    while rest.len() > 0
        invariant
            all.len() == rest@.len() + res@.len(),
            rest@ == all.subrange(0, rest@.len() as int),
            res@ == all.subrange(rest@.len() as int, all.len() as int).reverse(),
        decreases rest.len(),
    {
        let e = rest.pop().unwrap();
        res.push(e);
        assert(res@ == all.subrange(rest@.len() as int, all.len() as int).reverse());
    }
    res
}

/// Index of the first entry with the id `id`.
pub open spec fn first_with_id(entries: Seq<HistoryEntry>, id: Seq<char>) -> Option<int>
    decreases entries.len(),
{
    if entries.len() == 0 {
        None
    } else if entries[0].id@ == id {
        Some(0)
    } else {
        match first_with_id(entries.drop_first(), id) {
            Some(i) => Some(i + 1),
            None => None,
        }
    }
}

proof fn lemma_first_with_id(entries: Seq<HistoryEntry>, id: Seq<char>)
    ensures
        first_with_id(entries, id) matches Some(i) ==> 0 <= i < entries.len() && entries[i].id@
            == id && forall|j: int| 0 <= j < i ==> entries[j].id@ != id,
        first_with_id(entries, id) is None ==> forall|j: int|
            0 <= j < entries.len() ==> entries[j].id@ != id,
    decreases entries.len(),
{
    if entries.len() > 0 && entries[0].id@ != id {
        lemma_first_with_id(entries.drop_first(), id);
        assert forall|j: int| 1 <= j < entries.len() implies entries[j] == entries.drop_first()[j
            - 1] by {}
    }
}

/// The entry with the id `id`: the first one in the given (newest first) order.
pub fn read_history_entry(entries: Vec<HistoryEntry>, id: &str) -> (res: Result<
    HistoryEntry,
    AppError,
>)
    ensures
        first_with_id(entries@, id@) is Some ==> res == Ok::<HistoryEntry, AppError>(
            entries@[first_with_id(entries@, id@)->0],
        ),
        first_with_id(entries@, id@) is None ==> (res matches Err(e) && is_user_error(
            e,
            "history_not_found"@,
            "History entry was not found."@,
        )),
{
    let mut i: usize = 0;
    while i < entries.len() && !str_eq(entries[i].id.as_str(), id)
        invariant
            i <= entries.len(),
            forall|j: int| 0 <= j < i ==> entries@[j].id@ != id@,
        decreases entries.len() - i,
    {
        i += 1;
    }
    proof {
        lemma_first_with_id(entries@, id@);
    }
    if i < entries.len() {
        assert(first_with_id(entries@, id@) == Some(i as int));
        let mut entries = entries;
        let e = entries.swap_remove(i);
        Ok(e)
    } else {
        Err(AppError::user("history_not_found", owned("History entry was not found.")))
    }
}

/// The history entry for a sent request: a fresh id, the request as sent
/// (its URL the resolved one), its status and time from the response.
pub fn record_exchange(
    workspace_id: &str,
    request: HermesRequest,
    resolved_url: String,
    response: &HermesResponse,
    created_at: String,
) -> (res: HistoryEntry)
    ensures
        is_uuid_text(res.id@),
        res.workspace_id@ == workspace_id@,
        res.request_name@ == request.name@,
        res.method == request.method,
        res.url@ == resolved_url@,
        res.status == Some(response.status),
        res.elapsed_ms == Some(response.elapsed_ms),
        res.created_at@ == created_at@,
        res.request@ == (crate::models::RequestView { url: resolved_url@, ..request@ }),
        res.response matches Some(r) && r.status == response.status && r.body@ == response.body@
            && r.status_text@ == response.status_text@ && crate::models::rows_view(r.headers@)
            == crate::models::rows_view(response.headers@) && r.elapsed_ms == response.elapsed_ms
            && r.size_bytes == response.size_bytes && crate::error::opt_view(r.content_type)
            == crate::error::opt_view(response.content_type),
{
    let mut request = request;
    request.url = resolved_url;
    let url = owned(request.url.as_str());
    HistoryEntry {
        id: new_id(),
        workspace_id: owned(workspace_id),
        request_name: owned(request.name.as_str()),
        method: request.method,
        url,
        status: Some(response.status),
        elapsed_ms: Some(response.elapsed_ms),
        created_at,
        request,
        response: Some(response.clone()),
    }
}

/// Reading an entry from the history as it is listed (newest first) gives the
/// one appended last among those with that id; there is none exactly when no
/// appended entry has that id. `appended` is the file's order, oldest first.
pub proof fn lemma_latest_entry_wins(appended: Seq<HistoryEntry>, id: Seq<char>)
    ensures
        first_with_id(appended.reverse(), id) matches Some(i) ==> {
            let j = appended.len() - 1 - i;
            &&& 0 <= j < appended.len()
            &&& appended.reverse()[i] == appended[j]
            &&& appended[j].id@ == id
            &&& forall|k: int| j < k < appended.len() ==> appended[k].id@ != id
        },
        first_with_id(appended.reverse(), id) is None ==> forall|k: int|
            0 <= k < appended.len() ==> appended[k].id@ != id,
{
    let r = appended.reverse();
    lemma_first_with_id(r, id);
    let n = appended.len() as int;
    if let Some(i) = first_with_id(r, id) {
        assert forall|k: int| n - 1 - i < k < n implies appended[k].id@ != id by {
            assert(r[n - 1 - k] == appended[k]);
        }
    } else {
        assert forall|k: int| 0 <= k < n implies appended[k].id@ != id by {
            assert(r[n - 1 - k] == appended[k]);
        }
    }
}

} // verus!
