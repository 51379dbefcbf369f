//! What a gemma4 prompt says, turn by turn.

use crate::chat::dsl::{call_text, response_text};
use crate::chat::prompt::Piece;
use crate::chat::{
    arguments_of, block, call_turn, called, closed, generation, name_of_call, result_name, results,
    role_of, spoken, turn, ApiCallView, MessageView, Special,
};
use crate::json::read;
use crate::text::trimmed;
use vstd::prelude::*;

verus! {

/// A message without calls is a turn of its role, the assistant's being the model's: its
/// text without the space around it, and of the assistant's without its thoughts. Where
/// the model is not to think, a turn of its own that has no reasoning starts with a thought
/// that says nothing.
pub proof fn a_turn_is_its_text(sp: Special, rest: Seq<MessageView>, i: int, thinking: bool)
    requires
        rest[i].role != "tool"@,
        rest[i].tool_calls.len() == 0,
    ensures
        ({
            let m = rest[i];
            let role = if m.role == "assistant"@ {
                "model"@
            } else {
                m.role
            };
            let text = if m.role == "assistant"@ {
                trimmed(spoken(m.text()))
            } else {
                trimmed(m.text())
            };
            let opening = seq![Piece::Token(sp.turn_open), Piece::Text(role), Piece::Text("\n"@)];
            let hush = seq![
                Piece::Token(sp.channel_open),
                Piece::Text("thought\n"@),
                Piece::Token(sp.channel_close),
            ];
            let rest_of_it = seq![
                Piece::Text(text),
                Piece::Token(sp.turn_close),
                Piece::Text("\n"@),
            ];
            turn(sp, rest, i, thinking) == if role == "model"@ && !thinking && m.reasoning is None {
                opening + hush + rest_of_it
            } else {
                opening + rest_of_it
            }
        }),
{
    let m = rest[i];
    let role = role_of(m);
    let text = if m.role == "assistant"@ {
        trimmed(spoken(m.text()))
    } else {
        trimmed(m.text())
    };
    let opening = seq![Piece::Token(sp.turn_open), Piece::Text(role), Piece::Text("\n"@)];
    let hush = seq![
        Piece::Token(sp.channel_open),
        Piece::Text("thought\n"@),
        Piece::Token(sp.channel_close),
    ];
    let rest_of_it = seq![Piece::Text(text), Piece::Token(sp.turn_close), Piece::Text("\n"@)];
    if role == "model"@ && !thinking && m.reasoning is None {
        assert(turn(sp, rest, i, thinking) =~= opening + hush + rest_of_it);
    } else {
        assert(turn(sp, rest, i, thinking) =~= opening + rest_of_it);
    }
}

/// The results of calls stand in the turn that called, behind the calls and one behind the
/// other, each under the name of the call that it answers; where there are none yet, the
/// turn stays open for them. Messages that hold results add nothing of their own.
pub proof fn results_stand_in_the_turn_that_called(
    sp: Special,
    rest: Seq<MessageView>,
    i: int,
    to: int,
    told: Seq<Seq<Piece>>,
    calls: Seq<Seq<Piece>>,
)
    requires
        0 <= i < to <= rest.len(),
        rest[i].role != "tool"@,
        forall|k: int| i < k < to ==> (#[trigger] rest[k]).role == "tool"@,
        to == rest.len() || rest[to].role != "tool"@,
        calls.len() == rest[i].tool_calls.len(),
        forall|k: int|
            0 <= k < calls.len() ==> #[trigger] calls[k] == block(
                sp,
                sp.call_open,
                call_text(
                    rest[i].tool_calls[k].name,
                    arguments_of(rest[i].tool_calls[k].arguments),
                ),
                sp.call_close,
            ),
        told.len() == to - i - 1,
        forall|k: int|
            0 <= k < told.len() ==> #[trigger] told[k] == block(
                sp,
                sp.response_open,
                response_text(
                    result_name(rest[i].tool_calls, rest[i + 1 + k]),
                    rest[i + 1 + k].text(),
                    read(rest[i + 1 + k].text()),
                ),
                sp.response_close,
            ),
    ensures
        ({
            let m = rest[i];
            let thought = if m.reasoning is Some && trimmed(m.reasoning->0).len() > 0 {
                seq![
                    Piece::Token(sp.channel_open),
                    Piece::Text("thought\n"@),
                    Piece::Text(m.reasoning->0),
                    Piece::Text("\n"@),
                    Piece::Token(sp.channel_close),
                ]
            } else {
                Seq::empty()
            };
            call_turn(sp, rest, i) == thought + calls.flatten() + (if told.len() > 0 {
                told.flatten() + seq![Piece::Token(sp.turn_close), Piece::Text("\n"@)]
            } else {
                seq![Piece::Token(sp.response_open)]
            })
        }),
        forall|k: int|
            i < k < to ==> #[trigger] turn(sp, rest, k, true) == Seq::<Piece>::empty(),
        forall|k: int|
            i < k < to ==> #[trigger] turn(sp, rest, k, false) == Seq::<Piece>::empty(),
{
    let m = rest[i];
    lemma_calls(sp, m.tool_calls, calls, calls.len() as int);
    assert(calls.take(calls.len() as int) =~= calls);
    if i + 1 < to {
        assert(rest[i + 1].role == "tool"@);
        lemma_told(sp, m.tool_calls, rest, i + 1, to, told);
        assert(closed(sp) =~= seq![Piece::Token(sp.turn_close), Piece::Text("\n"@)]);
    } else {
        assert(to == i + 1);
    }
    assert forall|k: int| i < k < to implies #[trigger] turn(sp, rest, k, true) == Seq::<
        Piece,
    >::empty() by {
        assert(rest[k].role == "tool"@);
    }
    assert forall|k: int| i < k < to implies #[trigger] turn(sp, rest, k, false) == Seq::<
        Piece,
    >::empty() by {
        assert(rest[k].role == "tool"@);
    }
}

proof fn lemma_calls(sp: Special, calls: Seq<ApiCallView>, blocks: Seq<Seq<Piece>>, n: int)
    requires
        0 <= n <= blocks.len(),
        blocks.len() == calls.len(),
        forall|k: int|
            0 <= k < blocks.len() ==> #[trigger] blocks[k] == block(
                sp,
                sp.call_open,
                call_text(calls[k].name, arguments_of(calls[k].arguments)),
                sp.call_close,
            ),
    ensures
        called(sp, calls, n) == blocks.take(n).flatten(),
    decreases n,
{
    if n > 0 {
        lemma_calls(sp, calls, blocks, n - 1);
        assert(blocks.take(n) =~= blocks.take(n - 1).push(blocks[n - 1]));
        blocks.take(n - 1).lemma_flatten_push(blocks[n - 1]);
    } else {
        assert(blocks.take(0) =~= Seq::<Seq<Piece>>::empty());
        assert(blocks.take(0).flatten() =~= Seq::<Piece>::empty());
    }
}

proof fn lemma_told(
    sp: Special,
    calls: Seq<ApiCallView>,
    rest: Seq<MessageView>,
    j: int,
    to: int,
    told: Seq<Seq<Piece>>,
)
    requires
        0 <= j <= to <= rest.len(),
        forall|k: int| j <= k < to ==> (#[trigger] rest[k]).role == "tool"@,
        to == rest.len() || rest[to].role != "tool"@,
        told.len() == to - j,
        forall|k: int|
            0 <= k < told.len() ==> #[trigger] told[k] == block(
                sp,
                sp.response_open,
                response_text(
                    result_name(calls, rest[j + k]),
                    rest[j + k].text(),
                    read(rest[j + k].text()),
                ),
                sp.response_close,
            ),
    ensures
        results(sp, calls, rest, j) == told.flatten(),
    decreases to - j,
{
    if j < to {
        assert(rest[j].role == "tool"@);
        let tail = told.drop_first();
        assert forall|k: int| 0 <= k < tail.len() implies #[trigger] tail[k] == block(
            sp,
            sp.response_open,
            response_text(
                result_name(calls, rest[j + 1 + k]),
                rest[j + 1 + k].text(),
                read(rest[j + 1 + k].text()),
            ),
            sp.response_close,
        ) by {
            assert(tail[k] == told[k + 1]);
        }
        lemma_told(sp, calls, rest, j + 1, to, tail);
        assert(told[0] == block(
            sp,
            sp.response_open,
            response_text(
                result_name(calls, rest[j]),
                rest[j].text(),
                read(rest[j].text()),
            ),
            sp.response_close,
        ));
        assert(results(sp, calls, rest, j) =~= told[0] + tail.flatten());
    } else {
        assert(told =~= Seq::<Seq<Piece>>::empty());
        assert(told.flatten() =~= Seq::<Piece>::empty());
    }
}

/// A result goes by the name of the first call that has its id; where none has, by its own
/// name; and where it has none, by no name that is known.
pub proof fn results_go_by_their_calls(calls: Seq<ApiCallView>, m: MessageView, k: int)
    ensures
        0 <= k < calls.len() && m.tool_call_id == Some(calls[k].id) && (forall|j: int|
            0 <= j < k ==> m.tool_call_id != Some((#[trigger] calls[j]).id)) ==> result_name(
            calls,
            m,
        ) == calls[k].name,
        (forall|j: int|
            0 <= j < calls.len() ==> m.tool_call_id != Some((#[trigger] calls[j]).id))
            ==> result_name(calls, m) == match m.name {
            Some(n) => n,
            None => "unknown"@,
        },
{
    lemma_named(calls, m.tool_call_id, 0);
    match name_of_call(calls, m.tool_call_id, 0) {
        Some(_) => {},
        None => {},
    }
}

proof fn lemma_named(calls: Seq<ApiCallView>, id: Option<Seq<char>>, from: int)
    requires
        0 <= from <= calls.len(),
    ensures
        match name_of_call(calls, id, from) {
            Some(n) => exists|k: int|
                from <= k < calls.len() && id == Some((#[trigger] calls[k]).id) && n
                    == calls[k].name && forall|j: int|
                    from <= j < k ==> id != Some((#[trigger] calls[j]).id),
            None => forall|j: int|
                from <= j < calls.len() ==> id != Some((#[trigger] calls[j]).id),
        },
    decreases calls.len() - from,
{
    if from < calls.len() && id != Some(calls[from].id) {
        lemma_named(calls, id, from + 1);
        match name_of_call(calls, id, from) {
            Some(n) => {
                let k = choose|k: int|
                    from + 1 <= k < calls.len() && id == Some((#[trigger] calls[k]).id) && n
                        == calls[k].name && forall|j: int|
                        from + 1 <= j < k ==> id != Some((#[trigger] calls[j]).id);
                assert(id == Some(calls[k].id));
            },
            None => {},
        }
    } else if from < calls.len() {
        assert(id == Some(calls[from].id));
    }
}

/// The model continues from its own turn, with a thought that says nothing where it is not
/// to think.
pub proof fn the_model_is_to_speak(sp: Special)
    ensures
        generation(sp, true) == seq![
            Piece::Token(sp.turn_open),
            Piece::Text("model"@),
            Piece::Text("\n"@),
        ],
        generation(sp, false) == seq![
            Piece::Token(sp.turn_open),
            Piece::Text("model"@),
            Piece::Text("\n"@),
            Piece::Token(sp.channel_open),
            Piece::Text("thought\n"@),
            Piece::Token(sp.channel_close),
        ],
{
    assert(generation(sp, true) =~= seq![
        Piece::Token(sp.turn_open),
        Piece::Text("model"@),
        Piece::Text("\n"@),
    ]);
    assert(generation(sp, false) =~= seq![
        Piece::Token(sp.turn_open),
        Piece::Text("model"@),
        Piece::Text("\n"@),
        Piece::Token(sp.channel_open),
        Piece::Text("thought\n"@),
        Piece::Token(sp.channel_close),
    ]);
}

} // verus!
