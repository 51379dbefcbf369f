//! What a qwen prompt says, turn by turn.

use crate::chat::prompt::Piece;
use crate::chat::qwen::{
    call_block, called, closed, generation, opened, parameter_text, parameters, reasoning_of,
    rendered, turn, turns, Special,
};
use crate::chat::{arguments_of, ApiCallView, MessageView};
use crate::json::{printed, Entries, JsonView};
use crate::text::trimmed;
use vstd::prelude::*;

verus! {

/// A message of the user, or of any role that has no place of its own, is a user's turn:
/// its text without the space around it.
pub proof fn a_users_turn_is_its_text(sp: Special, rest: Seq<MessageView>, i: int)
    requires
        rest[i].role != "assistant"@,
        rest[i].role != "tool"@,
    ensures
        turn(sp, rest, i) == seq![
            Piece::Token(sp.im_start),
            Piece::Text("user"@),
            Piece::Text("\n"@),
            Piece::Text(trimmed(rest[i].text())),
            Piece::Token(sp.im_end),
            Piece::Text("\n"@),
        ],
{
    assert(turn(sp, rest, i) =~= seq![
        Piece::Token(sp.im_start),
        Piece::Text("user"@),
        Piece::Text("\n"@),
        Piece::Text(trimmed(rest[i].text())),
        Piece::Token(sp.im_end),
        Piece::Text("\n"@),
    ]);
}

/// An assistant's turn is a thought, empty or not, then what was said, then the calls. The
/// first call stands two lines behind what was said, if anything was; every other stands on
/// a line of its own.
pub proof fn an_assistants_turn_thinks_speaks_and_calls(
    sp: Special,
    rest: Seq<MessageView>,
    i: int,
    blocks: Seq<Seq<Piece>>,
    told: Seq<Seq<Piece>>,
)
    requires
        rest[i].role == "assistant"@,
        blocks.len() == rest[i].tool_calls.len(),
        told.len() == blocks.len() + 1,
        forall|k: int|
            0 <= k < blocks.len() ==> #[trigger] blocks[k] == call_block(
                sp,
                rest[i].tool_calls[k].name,
                arguments_of(rest[i].tool_calls[k].arguments),
            ),
        told[0] == Seq::<Piece>::empty(),
        forall|k: int|
            #![trigger blocks[k]]
            0 <= k < blocks.len() ==> told[k + 1] == if k > 0 {
                told[k].push(Piece::Text("\n"@)) + blocks[k]
            } else if trimmed(rest[i].text()).len() > 0 {
                seq![Piece::Text("\n\n"@)] + blocks[k]
            } else {
                blocks[k]
            },
    ensures
        ({
            let thought = match rest[i].reasoning {
                Some(r) => trimmed(r),
                None => Seq::<char>::empty(),
            };
            turn(sp, rest, i) == seq![
                Piece::Token(sp.im_start),
                Piece::Text("assistant"@),
                Piece::Text("\n"@),
                Piece::Token(sp.think_open),
                Piece::Text("\n"@),
                Piece::Text(thought),
                Piece::Text("\n"@),
                Piece::Token(sp.think_close),
                Piece::Text("\n\n"@),
                Piece::Text(trimmed(rest[i].text())),
            ] + told[blocks.len() as int] + seq![Piece::Token(sp.im_end), Piece::Text("\n"@)]
        }),
{
    let m = rest[i];
    let content = trimmed(m.text());
    lemma_called(sp, m.tool_calls, content.len() > 0, blocks, told, blocks.len() as int);
    let thought = match m.reasoning {
        Some(r) => trimmed(r),
        None => Seq::<char>::empty(),
    };
    let front = seq![
        Piece::Token(sp.im_start),
        Piece::Text("assistant"@),
        Piece::Text("\n"@),
        Piece::Token(sp.think_open),
        Piece::Text("\n"@),
        Piece::Text(thought),
        Piece::Text("\n"@),
        Piece::Token(sp.think_close),
        Piece::Text("\n\n"@),
        Piece::Text(content),
    ];
    assert(opened(sp, "assistant"@) + seq![
        Piece::Token(sp.think_open),
        Piece::Text("\n"@),
        Piece::Text(reasoning_of(m)),
        Piece::Text("\n"@),
        Piece::Token(sp.think_close),
        Piece::Text("\n\n"@),
        Piece::Text(content),
    ] =~= front);
}

proof fn lemma_called(
    sp: Special,
    calls: Seq<ApiCallView>,
    content: bool,
    blocks: Seq<Seq<Piece>>,
    told: Seq<Seq<Piece>>,
    n: int,
)
    requires
        0 <= n <= blocks.len(),
        blocks.len() == calls.len(),
        told.len() == blocks.len() + 1,
        forall|k: int|
            0 <= k < blocks.len() ==> #[trigger] blocks[k] == call_block(
                sp,
                calls[k].name,
                arguments_of(calls[k].arguments),
            ),
        told[0] == Seq::<Piece>::empty(),
        forall|k: int|
            #![trigger blocks[k]]
            0 <= k < blocks.len() ==> told[k + 1] == if k > 0 {
                told[k].push(Piece::Text("\n"@)) + blocks[k]
            } else if content {
                seq![Piece::Text("\n\n"@)] + blocks[k]
            } else {
                blocks[k]
            },
    ensures
        called(sp, calls, content, n) == told[n],
    decreases n,
{
    if n > 0 {
        let k = n - 1;
        lemma_called(sp, calls, content, blocks, told, k);
        assert(blocks[k] == call_block(sp, calls[k].name, arguments_of(calls[k].arguments)));
        assert(called(sp, calls, content, n) =~= told[k + 1]);
    }
}

/// A call is the function's name, then each argument between its own tags: a text as it
/// is, any other value as JSON.
pub proof fn a_call_names_its_arguments(
    sp: Special,
    name: Seq<char>,
    e: Entries,
    texts: Seq<Piece>,
)
    requires
        texts.len() == e.len(),
        forall|k: int|
            0 <= k < e.len() ==> #[trigger] texts[k] == ({
                let value = match e[k].1 {
                    JsonView::Text(s) => s,
                    other => printed(other),
                };
                Piece::Text(
                    "<parameter="@ + e[k].0 + ">\n"@ + value + "\n</parameter>\n"@,
                )
            }),
    ensures
        call_block(sp, name, JsonView::Object(e)) == seq![
            Piece::Token(sp.call_open),
            Piece::Text("\n<function="@ + name + ">\n"@),
        ] + texts + seq![Piece::Text("</function>\n"@), Piece::Token(sp.call_close)],
{
    lemma_parameters(e, texts, e.len() as int);
    assert(texts.take(e.len() as int) =~= texts);
}

proof fn lemma_parameters(e: Entries, texts: Seq<Piece>, n: int)
    requires
        0 <= n <= e.len(),
        texts.len() == e.len(),
        forall|k: int|
            0 <= k < e.len() ==> #[trigger] texts[k] == ({
                let value = match e[k].1 {
                    JsonView::Text(s) => s,
                    other => printed(other),
                };
                Piece::Text(
                    "<parameter="@ + e[k].0 + ">\n"@ + value + "\n</parameter>\n"@,
                )
            }),
    ensures
        parameters(e, n) == texts.take(n),
    decreases n,
{
    if n > 0 {
        lemma_parameters(e, texts, n - 1);
        assert(texts[n - 1] == Piece::Text(parameter_text(e[n - 1].0, rendered(e[n - 1].1))));
        assert(parameters(e, n) =~= texts.take(n));
    } else {
        assert(parameters(e, n) =~= texts.take(n));
    }
}

/// The results of tools that follow each other share one user's turn, which starts with the
/// first of them and ends with the last.
pub proof fn results_in_a_row_share_a_turn(
    sp: Special,
    rest: Seq<MessageView>,
    from: int,
    to: int,
    told: Seq<Seq<Piece>>,
)
    requires
        0 <= from < to <= rest.len(),
        forall|i: int| from <= i < to ==> (#[trigger] rest[i]).role == "tool"@,
        from == 0 || rest[from - 1].role != "tool"@,
        to == rest.len() || rest[to].role != "tool"@,
        told.len() == to - from,
        forall|i: int|
            0 <= i < told.len() ==> #[trigger] told[i] == seq![
                Piece::Text("\n"@),
                Piece::Token(sp.response_open),
                Piece::Text("\n"@),
                Piece::Text(trimmed(rest[from + i].text())),
                Piece::Text("\n"@),
                Piece::Token(sp.response_close),
            ],
    ensures
        turns(sp, rest, to) == turns(sp, rest, from) + seq![
            Piece::Token(sp.im_start),
            Piece::Text("user"@),
        ] + told.flatten() + seq![Piece::Token(sp.im_end), Piece::Text("\n"@)],
{
    lemma_results(sp, rest, from, to, to, told);
    assert(told.take(to - from) =~= told);
}

proof fn lemma_results(
    sp: Special,
    rest: Seq<MessageView>,
    from: int,
    to: int,
    at: int,
    told: Seq<Seq<Piece>>,
)
    requires
        0 <= from < at <= to <= rest.len(),
        forall|i: int| from <= i < to ==> (#[trigger] rest[i]).role == "tool"@,
        from == 0 || rest[from - 1].role != "tool"@,
        to == rest.len() || rest[to].role != "tool"@,
        told.len() == to - from,
        forall|i: int|
            0 <= i < told.len() ==> #[trigger] told[i] == seq![
                Piece::Text("\n"@),
                Piece::Token(sp.response_open),
                Piece::Text("\n"@),
                Piece::Text(trimmed(rest[from + i].text())),
                Piece::Text("\n"@),
                Piece::Token(sp.response_close),
            ],
    ensures
        turns(sp, rest, at) == turns(sp, rest, from) + seq![
            Piece::Token(sp.im_start),
            Piece::Text("user"@),
        ] + told.take(at - from).flatten() + (if at == to {
            seq![Piece::Token(sp.im_end), Piece::Text("\n"@)]
        } else {
            Seq::empty()
        }),
    decreases at - from,
{
    reveal_strlit("tool");
    reveal_strlit("assistant");
    assert("tool"@.len() == 4 && "assistant"@.len() == 9);
    let k = at - from - 1;
    let (front, back) = (turns(sp, rest, from), told.take(k));
    let opening = seq![Piece::Token(sp.im_start), Piece::Text("user"@)];
    let one = told[k];
    assert(told.take(k + 1) =~= back.push(one));
    back.lemma_flatten_push(one);
    let now = rest[at - 1];
    assert(now.role == "tool"@);
    let ending = if at == to {
        seq![Piece::Token(sp.im_end), Piece::Text("\n"@)]
    } else {
        Seq::<Piece>::empty()
    };
    assert(closed(sp) =~= seq![Piece::Token(sp.im_end), Piece::Text("\n"@)]);
    if at < to {
        assert(rest[at].role == "tool"@);
    }
    if k == 0 {
        assert(back =~= Seq::<Seq<Piece>>::empty());
        assert(back.flatten() =~= Seq::<Piece>::empty());
        assert(turn(sp, rest, from) =~= opening + one + ending);
    } else {
        lemma_results(sp, rest, from, to, at - 1, told);
        assert(rest[at - 2].role == "tool"@);
        assert(turn(sp, rest, at - 1) =~= one + ending);
    }
    assert(turns(sp, rest, at) =~= front + opening + (back.flatten() + one) + ending);
}

/// The model continues from an assistant's turn whose thought is open, or empty and closed.
pub proof fn the_model_is_to_speak(sp: Special)
    ensures
        generation(sp, true) == seq![
            Piece::Token(sp.im_start),
            Piece::Text("assistant"@),
            Piece::Text("\n"@),
            Piece::Token(sp.think_open),
            Piece::Text("\n"@),
        ],
        generation(sp, false) == seq![
            Piece::Token(sp.im_start),
            Piece::Text("assistant"@),
            Piece::Text("\n"@),
            Piece::Token(sp.think_open),
            Piece::Text("\n\n"@),
            Piece::Token(sp.think_close),
            Piece::Text("\n\n"@),
        ],
{
    assert(generation(sp, true) =~= seq![
        Piece::Token(sp.im_start),
        Piece::Text("assistant"@),
        Piece::Text("\n"@),
        Piece::Token(sp.think_open),
        Piece::Text("\n"@),
    ]);
    assert(generation(sp, false) =~= seq![
        Piece::Token(sp.im_start),
        Piece::Text("assistant"@),
        Piece::Text("\n"@),
        Piece::Token(sp.think_open),
        Piece::Text("\n\n"@),
        Piece::Token(sp.think_close),
        Piece::Text("\n\n"@),
    ]);
}

} // verus!
