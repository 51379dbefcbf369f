//! The prompt of the next step extends that of the last.
//!
//! An assistant turn is replayed as it was generated, with the empty thought
//! channel that the generation prompt opens when thinking is off. Were it not, the
//! next prompt would diverge from the cache at the first assistant message, and
//! every step would start over instead of extending the conversation.

use crate::chat::prompt::{ids_join, ids_of, Piece};
use crate::chat::{
    behind_lead, generation, leads, prompt_of, results, system_turn, turn, turns, ApiCallView,
    MessageView, Special, ToolView,
};
use crate::tokenizer::Tokenizer;
use vstd::prelude::*;

verus! {

/// `old`, and behind it a message of the assistant.
spec fn continued(old: Seq<MessageView>, new: Seq<MessageView>) -> bool {
    &&& old.len() < new.len()
    &&& forall|i: int| 0 <= i < old.len() ==> #[trigger] new[i] == old[i]
    &&& new[old.len() as int].role == "assistant"@
}

proof fn lemma_results(
    sp: Special,
    calls: Seq<ApiCallView>,
    old: Seq<MessageView>,
    new: Seq<MessageView>,
    j: int,
)
    requires
        continued(old, new),
        0 <= j <= old.len(),
    ensures
        results(sp, calls, new, j) == results(sp, calls, old, j),
    decreases old.len() - j,
{
    reveal_strlit("assistant");
    reveal_strlit("tool");
    if j < old.len() {
        assert(new[j] == old[j]);
        lemma_results(sp, calls, old, new, j + 1);
    } else {
        assert("assistant"@.len() != "tool"@.len());
    }
}

proof fn lemma_turns(
    sp: Special,
    old: Seq<MessageView>,
    new: Seq<MessageView>,
    n: int,
    thinking: bool,
)
    requires
        continued(old, new),
        0 <= n <= old.len(),
    ensures
        turns(sp, new, n, thinking) == turns(sp, old, n, thinking),
    decreases n,
{
    reveal_strlit("assistant");
    reveal_strlit("tool");
    assert("assistant"@.len() != "tool"@.len());
    if n > 0 {
        lemma_turns(sp, old, new, n - 1, thinking);
        assert(new[n - 1] == old[n - 1]);
        lemma_results(sp, old[n - 1].tool_calls, old, new, n);
        if n < old.len() {
            assert(new[n] == old[n]);
        }
    }
}

/// The first turns are what all of them start with.
proof fn lemma_turns_prefix(
    sp: Special,
    rest: Seq<MessageView>,
    k: int,
    n: int,
    thinking: bool,
)
    requires
        0 <= k <= n,
    ensures
        exists|x: Seq<Piece>|
            turns(sp, rest, n, thinking) == #[trigger] (turns(sp, rest, k, thinking) + x),
    decreases n - k,
{
    let head = turns(sp, rest, k, thinking);
    if k < n {
        lemma_turns_prefix(sp, rest, k, n - 1, thinking);
        let x = choose|x: Seq<Piece>|
            turns(sp, rest, n - 1, thinking) == #[trigger] (head + x);
        let y = x + turn(sp, rest, n - 1, thinking);
        assert(turns(sp, rest, n, thinking) =~= head + y);
    } else {
        assert(head =~= head + Seq::<Piece>::empty());
    }
}

/// What follows the leading instructions is continued too.
proof fn lemma_continued(msgs: Seq<MessageView>, answer: MessageView, more: Seq<MessageView>)
    requires
        answer.role == "assistant"@,
    ensures
        ({
            let all = msgs.push(answer) + more;
            let n = behind_lead(msgs).len() as int;
            &&& leads(all) == leads(msgs)
            &&& leads(msgs) ==> all[0] == msgs[0]
            &&& continued(behind_lead(msgs), behind_lead(all))
            &&& behind_lead(all)[n] == answer
        }),
{
    reveal_strlit("assistant");
    reveal_strlit("system");
    reveal_strlit("developer");
    assert("assistant"@.len() != "system"@.len());
    assert("assistant"@[0] != "developer"@[0]);
    let all = msgs.push(answer) + more;
    let old = behind_lead(msgs);
    let new = behind_lead(all);
    if msgs.len() > 0 {
        assert(all[0] == msgs[0]);
    } else {
        assert(all[0] == answer);
    }
    let skip: int = if leads(msgs) {
        1
    } else {
        0
    };
    assert forall|i: int| 0 <= i < old.len() implies #[trigger] new[i] == old[i] by {
        assert(new[i] == all[i + skip]);
        assert(old[i] == msgs[i + skip]);
    }
    assert(new[old.len() as int] == all[old.len() + skip]);
}

/// An answer without reasoning is replayed from what it was generated from.
proof fn lemma_answer(sp: Special, rest: Seq<MessageView>, i: int)
    requires
        0 <= i < rest.len(),
        rest[i].role == "assistant"@,
        rest[i].reasoning is None,
    ensures
        exists|x: Seq<Piece>| turn(sp, rest, i, false) == #[trigger] (generation(sp, false) + x),
{
    reveal_strlit("assistant");
    reveal_strlit("tool");
    assert("assistant"@.len() != "tool"@.len());
    let t = turn(sp, rest, i, false);
    let g = generation(sp, false);
    let x = t.skip(g.len() as int);
    assert(t =~= g + x);
}

/// With thinking off, the prompt for a conversation is what the prompt for it with
/// the answer and anything after that starts with.
pub proof fn next_prompt_extends(
    tok: Tokenizer,
    sp: Special,
    msgs: Seq<MessageView>,
    answer: MessageView,
    more: Seq<MessageView>,
    tools: Seq<ToolView>,
)
    requires
        answer.role == "assistant"@,
        answer.reasoning is None,
    ensures
        ids_of(tok, prompt_of(sp, msgs, tools, false)).is_prefix_of(
            ids_of(tok, prompt_of(sp, msgs.push(answer) + more, tools, false)),
        ),
{
    let all = msgs.push(answer) + more;
    let old = behind_lead(msgs);
    let new = behind_lead(all);
    let n = old.len() as int;
    lemma_continued(msgs, answer, more);
    lemma_turns(sp, old, new, n, false);
    lemma_answer(sp, new, n);
    lemma_turns_prefix(sp, new, n + 1, new.len() as int, false);
    let g = generation(sp, false);
    let tail = choose|x: Seq<Piece>| turn(sp, new, n, false) == #[trigger] (g + x);
    let head = turns(sp, old, n, false);
    let x = choose|x: Seq<Piece>|
        turns(sp, new, new.len() as int, false) == #[trigger] (turns(sp, new, n + 1, false) + x);
    let start = seq![Piece::Token(sp.bos)] + system_turn(sp, msgs, tools, false);
    assert(system_turn(sp, all, tools, false) == system_turn(sp, msgs, tools, false));
    lemma_prompt_joins(start, head, g, tail, x);
    let short = prompt_of(sp, msgs, tools, false);
    let rest = tail + x + g;
    ids_join(tok, short, rest);
    let a = ids_of(tok, short);
    assert((a + ids_of(tok, rest)).subrange(0, a.len() as int) =~= a);
}

proof fn lemma_prompt_joins(
    start: Seq<Piece>,
    head: Seq<Piece>,
    g: Seq<Piece>,
    tail: Seq<Piece>,
    x: Seq<Piece>,
)
    ensures
        start + (head + (g + tail) + x) + g == start + head + g + (tail + x + g),
{
    assert(start + (head + (g + tail) + x) + g =~= start + head + g + (tail + x + g));
}

} // verus!
