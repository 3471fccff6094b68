//! What holds of the texts that are read from requests and responses, and of the
//! requests that are enriched.

use vstd::prelude::*;
use vstd::string::*;
use crate::api::openai::{ChatCompletionRequest, ContentPart, Message, MessageContent};
use crate::api::requests::{tool_of, tool_views, ToolChoiceView};
use crate::api::wire_laws::law_lists_are_read_one_by_one;
use crate::augment::{
    all_user_texts, augment_request, augmentation_block, block_texts, fields_follow, injected, is_request_field, last_text,
    last_text_part, last_user, last_user_message, message_texts, messages_follow, messages_gain, messages_with_block,
    part_texts, parts_gain, parts_with_block, request_fields, response_text, typed_refusal, user_content, user_texts,
    with_stop_list, AugmentBackend,
};
use crate::config::AugmentBackendConfig;
use crate::json::{lemma_put, printed, put, JsonView};
use crate::text::{join_texts, law_join_of_one_more, texts, trimmed_end};

verus! {

broadcast use vstd::string::group_string_axioms;

/// The first blocks decide alone which texts they hold.
proof fn lemma_first_blocks(a: Seq<JsonView>, b: Seq<JsonView>, n: nat)
    requires
        n <= a.len(),
        n <= b.len(),
        forall|i: int| 0 <= i < n ==> a[i] == b[i],
    ensures
        block_texts(a, n) == block_texts(b, n),
    decreases n,
{
    if n > 0 {
        lemma_first_blocks(a, b, (n - 1) as nat);
    }
}

/// The first messages decide alone what the user wrote in them.
proof fn lemma_first_messages(a: Seq<JsonView>, b: Seq<JsonView>, n: nat)
    requires
        n <= a.len(),
        n <= b.len(),
        forall|i: int| 0 <= i < n ==> a[i] == b[i],
    ensures
        all_user_texts(a, n) == all_user_texts(b, n),
    decreases n,
{
    if n > 0 {
        lemma_first_messages(a, b, (n - 1) as nat);
    }
}

/// One more block is one more text where its `type` is `text` and its `text` is
/// a text, and nothing otherwise.
pub proof fn law_a_text_block_is_one_more_text(blocks: Seq<JsonView>, block: JsonView)
    ensures
        block_texts(Seq::empty(), 0) == Seq::<Seq<char>>::empty(),
        ({
            let before = block_texts(blocks, blocks.len());
            let after = block_texts(blocks.push(block), blocks.len() + 1);
            &&& block.get("type"@) == Some(JsonView::Str("text"@)) && block.get("text"@) is Some && block.get("text"@)->0
                is Str ==> after == before.push(block.get("text"@)->0->Str_0)
            &&& !(block.get("type"@) == Some(JsonView::Str("text"@)) && block.get("text"@) is Some && block.get("text"@)->0
                is Str) ==> after == before
        }),
{
    lemma_first_blocks(blocks, blocks.push(block), blocks.len());
}

/// A message whose role is not `user` contributes nothing: without it, what the
/// user wrote is the same.
pub proof fn law_messages_of_others_contribute_nothing(
    request: JsonView,
    without: JsonView,
    messages: Seq<JsonView>,
    i: int,
)
    requires
        request.get("messages"@) == Some(JsonView::Array(messages)),
        0 <= i < messages.len(),
        messages[i].get("role"@) != Some(JsonView::Str("user"@)),
        without.get("messages"@) == Some(JsonView::Array(messages.remove(i))),
    ensures
        user_content(without) == user_content(request),
{
    let fewer = messages.remove(i);
    lemma_without(messages, i, messages.len());
    assert(all_user_texts(fewer, fewer.len()) == all_user_texts(messages, messages.len()));
}

proof fn lemma_without(messages: Seq<JsonView>, i: int, n: nat)
    requires
        0 <= i < n <= messages.len(),
        messages[i].get("role"@) != Some(JsonView::Str("user"@)),
    ensures
        all_user_texts(messages.remove(i), (n - 1) as nat) == all_user_texts(messages, n),
    decreases n,
{
    let fewer = messages.remove(i);
    if n - 1 == i {
        lemma_first_messages(fewer, messages, i as nat);
        assert(user_texts(messages[i]) == Seq::<Seq<char>>::empty());
        assert(all_user_texts(messages, n) =~= all_user_texts(messages, i as nat));
    } else {
        lemma_without(messages, i, (n - 1) as nat);
        assert(fewer[n - 2] == messages[n - 1]);
    }
}

/// One more message of the user whose content is a text is one more text, on a
/// line of its own.
pub proof fn law_a_user_text_is_one_more_line(
    request: JsonView,
    longer: JsonView,
    messages: Seq<JsonView>,
    message: JsonView,
    text: Seq<char>,
)
    requires
        request.get("messages"@) == Some(JsonView::Array(messages)),
        longer.get("messages"@) == Some(JsonView::Array(messages.push(message))),
        message.get("role"@) == Some(JsonView::Str("user"@)),
        message.get("content"@) == Some(JsonView::Str(text)),
    ensures
        all_user_texts(messages.push(message), messages.len() + 1) == all_user_texts(messages, messages.len()).push(text),
        all_user_texts(messages, messages.len()).len() == 0 ==> user_content(longer) == text,
        all_user_texts(messages, messages.len()).len() > 0 ==> user_content(longer) == user_content(request) + "\n"@ + text,
{
    let more = messages.push(message);
    let before = all_user_texts(messages, messages.len());
    lemma_first_messages(messages, more, messages.len());
    assert(user_texts(message) == seq![text]);
    assert(all_user_texts(more, more.len()) =~= before.push(text));
    law_join_of_one_more(before, text, "\n"@);
}

/// The one text of a user is what the user wrote.
pub proof fn law_a_single_user_text_is_the_content(
    request: JsonView,
    messages: Seq<JsonView>,
    i: int,
    text: Seq<char>,
)
    requires
        request.get("messages"@) == Some(JsonView::Array(messages)),
        0 <= i < messages.len(),
        messages[i].get("role"@) == Some(JsonView::Str("user"@)),
        messages[i].get("content"@) == Some(JsonView::Str(text)),
        forall|k: int|
            0 <= k < messages.len() && k != i ==> (#[trigger] messages[k]).get("role"@) != Some(JsonView::Str("user"@)),
    ensures
        user_content(request) == text,
{
    lemma_single_user(messages, i, text, messages.len());
}

proof fn lemma_single_user(messages: Seq<JsonView>, i: int, text: Seq<char>, n: nat)
    requires
        0 <= i < messages.len(),
        n <= messages.len(),
        messages[i].get("role"@) == Some(JsonView::Str("user"@)),
        messages[i].get("content"@) == Some(JsonView::Str(text)),
        forall|k: int|
            0 <= k < messages.len() && k != i ==> (#[trigger] messages[k]).get("role"@) != Some(JsonView::Str("user"@)),
    ensures
        all_user_texts(messages, n) == if n > i {
            seq![text]
        } else {
            Seq::<Seq<char>>::empty()
        },
    decreases n,
{
    if n > 0 {
        lemma_single_user(messages, i, text, (n - 1) as nat);
        if n - 1 == i {
            assert(all_user_texts(messages, n) =~= seq![text]);
        } else {
            assert(user_texts(messages[n - 1]) == Seq::<Seq<char>>::empty());
            assert(all_user_texts(messages, n) =~= all_user_texts(messages, (n - 1) as nat));
        }
    }
}

/// Where the content of a message of the user is a list, one more text block in
/// it is one more text; a block of another kind is none.
pub proof fn law_a_user_block_is_one_more_text(
    messages: Seq<JsonView>,
    message: JsonView,
    longer: JsonView,
    blocks: Seq<JsonView>,
    block: JsonView,
)
    requires
        message.get("role"@) == Some(JsonView::Str("user"@)),
        longer.get("role"@) == Some(JsonView::Str("user"@)),
        message.get("content"@) == Some(JsonView::Array(blocks)),
        longer.get("content"@) == Some(JsonView::Array(blocks.push(block))),
    ensures
        blocks.len() == 0 ==> all_user_texts(messages.push(message), messages.len() + 1) == all_user_texts(
            messages,
            messages.len(),
        ),
        ({
            let before = all_user_texts(messages.push(message), messages.len() + 1);
            let after = all_user_texts(messages.push(longer), messages.len() + 1);
            &&& block.get("type"@) == Some(JsonView::Str("text"@)) && block.get("text"@) is Some && block.get("text"@)->0
                is Str ==> after == before.push(block.get("text"@)->0->Str_0)
            &&& !(block.get("type"@) == Some(JsonView::Str("text"@)) && block.get("text"@) is Some && block.get("text"@)->0
                is Str) ==> after == before
        }),
{
    let a = messages.push(message);
    let b = messages.push(longer);
    lemma_first_messages(messages, a, messages.len());
    lemma_first_messages(messages, b, messages.len());
    law_a_text_block_is_one_more_text(blocks, block);
    let shared = all_user_texts(messages, messages.len());
    let old_texts = block_texts(blocks, blocks.len());
    let new_texts = block_texts(blocks.push(block), blocks.len() + 1);
    assert(all_user_texts(a, a.len()) == shared + old_texts);
    assert(all_user_texts(b, b.len()) == shared + new_texts);
    if blocks.len() == 0 {
        assert(shared + old_texts =~= shared);
    }
    if new_texts != old_texts {
        assert(shared + new_texts =~= (shared + old_texts).push(new_texts.last()));
    }
}

/// A message of the user whose content is neither a text nor a list contributes
/// nothing, and a request without a list of messages holds nothing of the user.
pub proof fn law_no_text_contributes_nothing(request: JsonView, messages: Seq<JsonView>, message: JsonView)
    requires
        message.get("content"@) is None || !(message.get("content"@)->0 is Str || message.get("content"@)->0 is Array),
        request.get("messages"@) is None || !(request.get("messages"@)->0 is Array),
    ensures
        all_user_texts(messages.push(message), messages.len() + 1) == all_user_texts(messages, messages.len()),
        user_content(request) == Seq::<char>::empty(),
{
    let more = messages.push(message);
    lemma_first_messages(messages, more, messages.len());
    assert(user_texts(message) == Seq::<Seq<char>>::empty());
    assert(all_user_texts(more, more.len()) =~= all_user_texts(messages, messages.len()));
}

/// The content of the message of the first choice is the answer, whatever else
/// the body holds.
pub proof fn law_the_first_choice_is_the_answer(
    body: JsonView,
    choices: Seq<JsonView>,
    message: JsonView,
    text: Seq<char>,
)
    requires
        body.get("choices"@) == Some(JsonView::Array(choices)),
        choices.len() > 0,
        choices[0].get("message"@) == Some(message),
        message.get("content"@) == Some(JsonView::Str(text)),
    ensures
        response_text(body) == Ok::<Seq<char>, Seq<char>>(text),
{
}

/// Without choices the texts of the blocks of `content` are the answer, and a
/// body with no text at all is refused.
pub proof fn law_blocks_are_the_answer_without_choices(body: JsonView)
    requires
        match body.get("choices"@) {
            Some(JsonView::Array(choices)) => choices.len() == 0,
            _ => true,
        },
    ensures
        match body.get("content"@) {
            Some(JsonView::Array(blocks)) => {
                let text = join_texts(block_texts(blocks, blocks.len()), "\n"@);
                if text.len() > 0 {
                    response_text(body) == Ok::<Seq<char>, Seq<char>>(text)
                } else {
                    response_text(body) is Err
                }
            },
            _ => response_text(body) is Err,
        },
        response_text(body) is Err ==> response_text(body)->Err_0
            == "Could not extract text from augment backend response: "@ + printed(body),
{
}

/// The call of the enriching backend is not streamed, names the model, and holds
/// one message of the user: the prompt, an empty line, and what the user wrote.
pub proof fn law_the_call_holds_prompt_and_content(model: Seq<char>, prompt: Seq<char>, content: Seq<char>)
    ensures
        augment_request(model, prompt, content).get("model"@) == Some(JsonView::Str(model)),
        augment_request(model, prompt, content).get("stream"@) == Some(JsonView::Bool(false)),
        ({
            let messages = augment_request(model, prompt, content).get("messages"@);
            &&& messages is Some
            &&& messages->0 is Array
            &&& messages->0->Array_0.len() == 1
            &&& messages->0->Array_0[0].get("role"@) == Some(JsonView::Str("user"@))
            &&& messages->0->Array_0[0].get("content"@) == Some(JsonView::Str(prompt + "\n\n"@ + content))
        }),
{
    reveal_strlit("model");
    reveal_strlit("stream");
    reveal_strlit("messages");
    reveal_strlit("role");
    reveal_strlit("content");
    assert("model"@.len() == 5 && "stream"@.len() == 6 && "messages"@.len() == 8 && "role"@.len() == 4 && "content"@.len()
        == 7);
    reveal_with_fuel(crate::json::position_from, 4);
}

proof fn lemma_last_user_is(messages: Seq<JsonView>, i: int, n: nat)
    requires
        0 <= i < n <= messages.len(),
        messages[i].get("role"@) == Some(JsonView::Str("user"@)),
        forall|k: int|
            i < k < messages.len() ==> (#[trigger] messages[k]).get("role"@) != Some(JsonView::Str("user"@)),
    ensures
        last_user(messages, n) == Some(i),
    decreases n,
{
    if n - 1 > i {
        lemma_last_user_is(messages, i, (n - 1) as nat);
    }
}

proof fn lemma_no_user(messages: Seq<JsonView>, n: nat)
    requires
        n <= messages.len(),
        forall|k: int|
            0 <= k < messages.len() ==> (#[trigger] messages[k]).get("role"@) != Some(JsonView::Str("user"@)),
    ensures
        last_user(messages, n) is None,
    decreases n,
{
    if n > 0 {
        lemma_no_user(messages, (n - 1) as nat);
    }
}

proof fn lemma_last_part_is(parts: Seq<JsonView>, j: int, n: nat)
    requires
        0 <= j < n <= parts.len(),
        parts[j].get("type"@) == Some(JsonView::Str("text"@)),
        forall|k: int| j < k < parts.len() ==> (#[trigger] parts[k]).get("type"@) != Some(JsonView::Str("text"@)),
    ensures
        last_text_part(parts, n) == Some(j),
    decreases n,
{
    if n - 1 > j {
        lemma_last_part_is(parts, j, (n - 1) as nat);
    }
}

proof fn lemma_no_part(parts: Seq<JsonView>, n: nat)
    requires
        n <= parts.len(),
        forall|k: int| 0 <= k < parts.len() ==> (#[trigger] parts[k]).get("type"@) != Some(JsonView::Str("text"@)),
    ensures
        last_text_part(parts, n) is None,
    decreases n,
{
    if n > 0 {
        lemma_no_part(parts, (n - 1) as nat);
    }
}

proof fn lemma_stop_apart(request: JsonView)
    requires
        request is Object,
    ensures
        with_stop_list(request) is Object,
        with_stop_list(request).get("messages"@) == request.get("messages"@),
{
    reveal_strlit("stop");
    reveal_strlit("messages");
    assert("stop"@.len() != "messages"@.len());
    if let Some(JsonView::Str(s)) = request.get("stop"@) {
        lemma_put(request, "stop"@, JsonView::Array(seq![JsonView::Str(s)]), "messages"@);
    }
}

/// The prompt and the augmentation come, each behind an empty line, at the end of
/// the content of the last message of the user. Every other message stays.
pub proof fn law_the_last_user_text_gains_prompt_and_augmentation(
    request: JsonView,
    prompt: Seq<char>,
    augmentation: Seq<char>,
    messages: Seq<JsonView>,
    i: int,
    text: Seq<char>,
) -> (done: Seq<JsonView>)
    requires
        request is Object,
        request.get("messages"@) == Some(JsonView::Array(messages)),
        0 <= i < messages.len(),
        messages[i].get("role"@) == Some(JsonView::Str("user"@)),
        forall|k: int|
            i < k < messages.len() ==> (#[trigger] messages[k]).get("role"@) != Some(JsonView::Str("user"@)),
        match messages[i].get("content"@) {
            Some(JsonView::Str(s)) => s == text,
            Some(JsonView::Null) => text.len() == 0,
            None => text.len() == 0,
            _ => false,
        },
    ensures
        injected(request, prompt, augmentation) is Ok,
        injected(request, prompt, augmentation)->Ok_0.get("messages"@) == Some(JsonView::Array(done)),
        done.len() == messages.len(),
        forall|k: int| 0 <= k < messages.len() && k != i ==> done[k] == #[trigger] messages[k],
        done[i].get("content"@) == Some(JsonView::Str(text + "\n\n"@ + prompt + "\n\n"@ + augmentation)),
        forall|key: Seq<char>| key != "content"@ ==> #[trigger] done[i].get(key) == messages[i].get(key),
{
    let block = augmentation_block(prompt, augmentation);
    lemma_stop_apart(request);
    lemma_last_user_is(messages, i, messages.len());
    let listed = with_stop_list(request);
    let done = messages_with_block(messages, block)->Ok_0;
    lemma_put(listed, "messages"@, JsonView::Array(done), "messages"@);
    let whole = text + "\n\n"@ + prompt + "\n\n"@ + augmentation;
    assert(text + block =~= whole);
    if text.len() == 0 {
        assert(block =~= whole);
    }
    assert(done[i] == put(messages[i], "content"@, JsonView::Str(whole)));
    lemma_put(messages[i], "content"@, JsonView::Str(whole), "content"@);
    assert forall|key: Seq<char>| key != "content"@ implies #[trigger] done[i].get(key) == messages[i].get(key) by {
        lemma_put(messages[i], "content"@, JsonView::Str(whole), key);
    }
    done
}

/// Where the content of the last message of the user is a list, its last text
/// part gains the block at the end of its text, and every other part stays.
/// Without a text part, one that holds the block comes behind the others.
pub proof fn law_the_last_text_part_gains_the_block(parts: Seq<JsonView>, block: Seq<char>, j: int)
    requires
        0 <= j < parts.len(),
        forall|k: int| j < k < parts.len() ==> (#[trigger] parts[k]).get("type"@) != Some(JsonView::Str("text"@)),
    ensures
        ({
            let done = parts_with_block(parts, block);
            &&& parts[j].get("type"@) == Some(JsonView::Str("text"@)) && parts[j].get("text"@) is Some && parts[j].get(
                "text"@,
            )->0 is Str ==> {
                &&& done.len() == parts.len()
                &&& forall|k: int| 0 <= k < parts.len() && k != j ==> done[k] == #[trigger] parts[k]
                &&& done[j].get("text"@) == Some(JsonView::Str(parts[j].get("text"@)->0->Str_0 + block))
                &&& forall|key: Seq<char>| key != "text"@ ==> #[trigger] done[j].get(key) == parts[j].get(key)
            }
            &&& parts[j].get("type"@) == Some(JsonView::Str("text"@)) && !(parts[j].get("text"@) is Some && parts[j].get(
                "text"@,
            )->0 is Str) ==> done == parts
        }),
{
    if parts[j].get("type"@) == Some(JsonView::Str("text"@)) {
        lemma_last_part_is(parts, j, parts.len());
        if let Some(JsonView::Str(t)) = parts[j].get("text"@) {
            let done = parts_with_block(parts, block);
            let value = JsonView::Str(t + block);
            lemma_put(parts[j], "text"@, value, "text"@);
            assert forall|key: Seq<char>| key != "text"@ implies #[trigger] done[j].get(key) == parts[j].get(key) by {
                lemma_put(parts[j], "text"@, value, key);
            }
        }
    }
}

/// Where no part is a text part, a text part that holds the block comes behind
/// the others.
pub proof fn law_no_text_part_means_a_new_one(parts: Seq<JsonView>, block: Seq<char>)
    requires
        forall|k: int| 0 <= k < parts.len() ==> (#[trigger] parts[k]).get("type"@) != Some(JsonView::Str("text"@)),
    ensures
        parts_with_block(parts, block).len() == parts.len() + 1,
        parts_with_block(parts, block).drop_last() == parts,
        parts_with_block(parts, block).last().get("type"@) == Some(JsonView::Str("text"@)),
        parts_with_block(parts, block).last().get("text"@) == Some(JsonView::Str(block)),
{
    lemma_no_part(parts, parts.len());
    assert(parts_with_block(parts, block).drop_last() =~= parts);
    reveal_strlit("type");
    reveal_strlit("text");
    assert("type"@[1] == 'y' && "text"@[1] == 'e');
    reveal_with_fuel(crate::json::position_from, 3);
}

/// A message of the user with a list as its content keeps its other members, and
/// its list gains the block.
pub proof fn law_a_list_of_parts_gains_the_block(
    request: JsonView,
    prompt: Seq<char>,
    augmentation: Seq<char>,
    messages: Seq<JsonView>,
    i: int,
    parts: Seq<JsonView>,
) -> (done: Seq<JsonView>)
    requires
        request is Object,
        request.get("messages"@) == Some(JsonView::Array(messages)),
        0 <= i < messages.len(),
        messages[i].get("role"@) == Some(JsonView::Str("user"@)),
        forall|k: int|
            i < k < messages.len() ==> (#[trigger] messages[k]).get("role"@) != Some(JsonView::Str("user"@)),
        messages[i].get("content"@) == Some(JsonView::Array(parts)),
    ensures
        injected(request, prompt, augmentation) is Ok,
        injected(request, prompt, augmentation)->Ok_0.get("messages"@) == Some(JsonView::Array(done)),
        done.len() == messages.len(),
        forall|k: int| 0 <= k < messages.len() && k != i ==> done[k] == #[trigger] messages[k],
        done[i].get("content"@) == Some(
            JsonView::Array(parts_with_block(parts, "\n\n"@ + prompt + "\n\n"@ + augmentation)),
        ),
        forall|key: Seq<char>| key != "content"@ ==> #[trigger] done[i].get(key) == messages[i].get(key),
{
    let block = augmentation_block(prompt, augmentation);
    lemma_stop_apart(request);
    lemma_last_user_is(messages, i, messages.len());
    let listed = with_stop_list(request);
    let done = messages_with_block(messages, block)->Ok_0;
    lemma_put(listed, "messages"@, JsonView::Array(done), "messages"@);
    let value = JsonView::Array(parts_with_block(parts, block));
    lemma_put(messages[i], "content"@, value, "content"@);
    assert forall|key: Seq<char>| key != "content"@ implies #[trigger] done[i].get(key) == messages[i].get(key) by {
        lemma_put(messages[i], "content"@, value, key);
    }
    done
}

/// Where no message is the user's, a system message that holds the block comes
/// behind the others.
pub proof fn law_without_a_user_a_system_message_holds_the_block(
    request: JsonView,
    prompt: Seq<char>,
    augmentation: Seq<char>,
    messages: Seq<JsonView>,
) -> (done: Seq<JsonView>)
    requires
        request is Object,
        request.get("messages"@) == Some(JsonView::Array(messages)),
        forall|k: int|
            0 <= k < messages.len() ==> (#[trigger] messages[k]).get("role"@) != Some(JsonView::Str("user"@)),
    ensures
        injected(request, prompt, augmentation) is Ok,
        injected(request, prompt, augmentation)->Ok_0.get("messages"@) == Some(JsonView::Array(done)),
        messages.len() == 0 ==> done == messages,
        messages.len() > 0 ==> {
            &&& done.len() == messages.len() + 1
            &&& done.drop_last() == messages
            &&& done.last().get("role"@) == Some(JsonView::Str("system"@))
            &&& done.last().get("content"@) == Some(JsonView::Str("\n\n"@ + prompt + "\n\n"@ + augmentation))
        },
{
    let block = augmentation_block(prompt, augmentation);
    lemma_stop_apart(request);
    lemma_no_user(messages, messages.len());
    let done = messages_with_block(messages, block)->Ok_0;
    lemma_put(with_stop_list(request), "messages"@, JsonView::Array(done), "messages"@);
    if messages.len() > 0 {
        assert(done.drop_last() =~= messages);
        reveal_strlit("role");
        reveal_strlit("content");
        assert("role"@.len() != "content"@.len());
        reveal_with_fuel(crate::json::position_from, 3);
    }
    done
}

/// A request is refused that is no object, that has no list of messages, or whose
/// last message of the user has a content of another type; any other is not.
pub proof fn law_which_requests_take_no_block(
    request: JsonView,
    prompt: Seq<char>,
    augmentation: Seq<char>,
    messages: Seq<JsonView>,
    i: int,
)
    ensures
        !(request is Object) ==> injected(request, prompt, augmentation) is Err,
        request is Object && (request.get("messages"@) is None || !(request.get("messages"@)->0 is Array)) ==> injected(
            request,
            prompt,
            augmentation,
        ) is Err,
        request is Object && request.get("messages"@) == Some(JsonView::Array(messages)) && 0 <= i < messages.len()
            && messages[i].get("role"@) == Some(JsonView::Str("user"@)) && (forall|k: int|
            i < k < messages.len() ==> (#[trigger] messages[k]).get("role"@) != Some(JsonView::Str("user"@))) ==> (injected(
            request,
            prompt,
            augmentation,
        ) is Err <==> match messages[i].get("content"@) {
            Some(JsonView::Bool(_)) => true,
            Some(JsonView::Unsigned(_)) => true,
            Some(JsonView::Negative(_)) => true,
            Some(JsonView::Float(_)) => true,
            Some(JsonView::Object(_)) => true,
            _ => false,
        }),
{
    if request is Object {
        lemma_stop_apart(request);
        if request.get("messages"@) == Some(JsonView::Array(messages)) && 0 <= i < messages.len() && messages[i].get(
            "role"@,
        ) == Some(JsonView::Str("user"@)) && (forall|k: int|
            i < k < messages.len() ==> (#[trigger] messages[k]).get("role"@) != Some(JsonView::Str("user"@))) {
            lemma_last_user_is(messages, i, messages.len());
        }
    }
}

proof fn lemma_first_typed(a: Seq<Message>, b: Seq<Message>, n: nat)
    requires
        n <= a.len(),
        n <= b.len(),
        forall|i: int| 0 <= i < n ==> a[i] == b[i],
    ensures
        message_texts(a, n) == message_texts(b, n),
    decreases n,
{
    if n > 0 {
        lemma_first_typed(a, b, (n - 1) as nat);
    }
}

proof fn lemma_first_parts(a: Seq<ContentPart>, b: Seq<ContentPart>, n: nat)
    requires
        n <= a.len(),
        n <= b.len(),
        forall|i: int| 0 <= i < n ==> a[i] == b[i],
    ensures
        part_texts(a, n) == part_texts(b, n),
    decreases n,
{
    if n > 0 {
        lemma_first_parts(a, b, (n - 1) as nat);
    }
}

/// One more part is one more text where it is a text part that has one.
pub proof fn law_a_text_part_is_one_more_text(parts: Seq<ContentPart>, part: ContentPart)
    ensures
        part_texts(Seq::empty(), 0) == Seq::<Seq<char>>::empty(),
        part.content_type@ == "text"@ && part.text is Some ==> part_texts(parts.push(part), parts.len() + 1) == part_texts(
            parts,
            parts.len(),
        ).push(part.text->0@),
        !(part.content_type@ == "text"@ && part.text is Some) ==> part_texts(parts.push(part), parts.len() + 1)
            == part_texts(parts, parts.len()),
{
    lemma_first_parts(parts, parts.push(part), parts.len());
}

/// One more message is one more text where it is the user's and holds a text, or
/// parts whose texts are not all empty; any other message is none.
pub proof fn law_a_user_message_is_one_more_text(messages: Seq<Message>, message: Message)
    ensures
        message_texts(Seq::empty(), 0) == Seq::<Seq<char>>::empty(),
        ({
            let before = message_texts(messages, messages.len());
            let after = message_texts(messages.push(message), messages.len() + 1);
            &&& message.role@ != "user"@ ==> after == before
            &&& message.content is None ==> after == before
            &&& message.role@ == "user"@ && message.content is Some ==> match message.content->0 {
                MessageContent::Text(text) => after == before.push(text@),
                MessageContent::Parts(parts) => {
                    let text = join_texts(part_texts(parts@, parts@.len()), "\n"@);
                    if text.len() > 0 {
                        after == before.push(text)
                    } else {
                        after == before
                    }
                },
            }
        }),
{
    lemma_first_typed(messages, messages.push(message), messages.len());
}

proof fn lemma_last_user_message_is(messages: Seq<Message>, i: int, n: nat)
    requires
        0 <= i < n <= messages.len(),
        messages[i].role@ == "user"@,
        forall|k: int| i < k < messages.len() ==> (#[trigger] messages[k]).role@ != "user"@,
    ensures
        last_user_message(messages, n) == Some(i),
    decreases n,
{
    if n - 1 > i {
        lemma_last_user_message_is(messages, i, (n - 1) as nat);
    }
}

proof fn lemma_no_user_message(messages: Seq<Message>, n: nat)
    requires
        n <= messages.len(),
        forall|k: int| 0 <= k < messages.len() ==> (#[trigger] messages[k]).role@ != "user"@,
    ensures
        last_user_message(messages, n) is None,
    decreases n,
{
    if n > 0 {
        lemma_no_user_message(messages, (n - 1) as nat);
    }
}

/// Of messages that were read into their fields, the last one of the user gains
/// the block at the end of its text. Every other message and field stays.
pub proof fn law_the_last_user_message_gains_the_block(before: Seq<Message>, block: Seq<char>, after: Seq<Message>, i: int)
    requires
        messages_gain(before, block, after),
        0 <= i < before.len(),
        before[i].role@ == "user"@,
        forall|k: int| i < k < before.len() ==> (#[trigger] before[k]).role@ != "user"@,
    ensures
        after.len() == before.len(),
        forall|k: int| 0 <= k < before.len() && k != i ==> after[k] == #[trigger] before[k],
        after[i].role == before[i].role,
        after[i].name == before[i].name,
        after[i].tool_calls == before[i].tool_calls,
        after[i].tool_call_id == before[i].tool_call_id,
        after[i].content is Some,
        before[i].content is None ==> after[i].content->0 is Text && after[i].content->0->Text_0@ == block,
        before[i].content is Some && before[i].content->0 is Text ==> after[i].content->0 is Text
            && after[i].content->0->Text_0@ == before[i].content->0->Text_0@ + block,
        before[i].content is Some && before[i].content->0 is Parts ==> after[i].content->0 is Parts && parts_gain(
            before[i].content->0->Parts_0@,
            block,
            after[i].content->0->Parts_0@,
        ),
{
    lemma_last_user_message_is(before, i, before.len());
    assert forall|k: int| 0 <= k < before.len() && k != i implies after[k] == #[trigger] before[k] by {
        assert(after[k] == before.update(i, after[i])[k]);
    }
}

/// Where no message is the user's, a system message that holds the block comes
/// behind the others; no message at all stays none.
pub proof fn law_without_a_user_message_a_system_message_is_added(
    before: Seq<Message>,
    block: Seq<char>,
    after: Seq<Message>,
)
    requires
        messages_gain(before, block, after),
        forall|k: int| 0 <= k < before.len() ==> (#[trigger] before[k]).role@ != "user"@,
    ensures
        before.len() == 0 ==> after == before,
        before.len() > 0 ==> {
            &&& after.len() == before.len() + 1
            &&& after.drop_last() == before
            &&& after.last().role@ == "system"@
            &&& after.last().content is Some
            &&& after.last().content->0 is Text
            &&& after.last().content->0->Text_0@ == block
        },
{
    lemma_no_user_message(before, before.len());
    if before.len() > 0 {
        assert(after.drop_last() =~= before);
    }
}

proof fn lemma_last_text_is(parts: Seq<ContentPart>, j: int, n: nat)
    requires
        0 <= j < n <= parts.len(),
        parts[j].content_type@ == "text"@,
        forall|k: int| j < k < parts.len() ==> (#[trigger] parts[k]).content_type@ != "text"@,
    ensures
        last_text(parts, n) == Some(j),
    decreases n,
{
    if n - 1 > j {
        lemma_last_text_is(parts, j, (n - 1) as nat);
    }
}

proof fn lemma_no_text_part(parts: Seq<ContentPart>, n: nat)
    requires
        n <= parts.len(),
        forall|k: int| 0 <= k < parts.len() ==> (#[trigger] parts[k]).content_type@ != "text"@,
    ensures
        last_text(parts, n) is None,
    decreases n,
{
    if n > 0 {
        lemma_no_text_part(parts, (n - 1) as nat);
    }
}

/// Of parts that were read into their fields, the last text part gains the block
/// at the end of its text, and nothing changes where it has none.
pub proof fn law_the_last_text_gains_the_block(before: Seq<ContentPart>, block: Seq<char>, after: Seq<ContentPart>, j: int)
    requires
        parts_gain(before, block, after),
        0 <= j < before.len(),
        before[j].content_type@ == "text"@,
        forall|k: int| j < k < before.len() ==> (#[trigger] before[k]).content_type@ != "text"@,
    ensures
        before[j].text is None ==> after == before,
        before[j].text is Some ==> {
            &&& after.len() == before.len()
            &&& forall|k: int| 0 <= k < before.len() && k != j ==> after[k] == #[trigger] before[k]
            &&& after[j].content_type == before[j].content_type
            &&& after[j].image_url == before[j].image_url
            &&& after[j].text is Some
            &&& after[j].text->0@ == before[j].text->0@ + block
        },
{
    lemma_last_text_is(before, j, before.len());
    if before[j].text is Some {
        assert forall|k: int| 0 <= k < before.len() && k != j implies after[k] == #[trigger] before[k] by {
            assert(after[k] == before.update(j, after[j])[k]);
        }
    }
}

/// Of parts that were read into their fields none of which is a text part, the
/// block becomes one behind them.
pub proof fn law_no_text_means_a_new_part(before: Seq<ContentPart>, block: Seq<char>, after: Seq<ContentPart>)
    requires
        parts_gain(before, block, after),
        forall|k: int| 0 <= k < before.len() ==> (#[trigger] before[k]).content_type@ != "text"@,
    ensures
        after.len() == before.len() + 1,
        after.drop_last() == before,
        after.last().content_type@ == "text"@,
        after.last().text is Some,
        after.last().text->0@ == block,
        after.last().image_url is None,
{
    lemma_no_text_part(before, before.len());
    assert(after.drop_last() =~= before);
}

/// A request whose further members have no name of a field takes the block into its
/// messages, and every field stays as it was.
pub proof fn law_ordinary_requests_take_the_block(
    request: ChatCompletionRequest,
    block: Seq<char>,
    done: ChatCompletionRequest,
)
    requires
        !request.extra@.contains_key("model"@),
        !request.extra@.contains_key("messages"@),
        !request.extra@.contains_key("temperature"@),
        !request.extra@.contains_key("top_p"@),
        !request.extra@.contains_key("max_tokens"@),
        !request.extra@.contains_key("stream"@),
        !request.extra@.contains_key("tools"@),
        !request.extra@.contains_key("tool_choice"@),
        !request.extra@.contains_key("stop"@),
        !request.extra@.contains_key("frequency_penalty"@),
        !request.extra@.contains_key("presence_penalty"@),
        !request.extra@.contains_key("user"@),
        !request.extra@.contains_key("reasoning_effort"@),
        !request.extra@.contains_key("verbosity"@),
        !request.extra@.contains_key("thinking_budget"@),
    ensures
        typed_refusal(request, block) is None,
        messages_follow(request, block, done.messages@) <==> messages_gain(request.messages@, block, done.messages@),
        fields_follow(request, done) <==> done == (ChatCompletionRequest {
            messages: done.messages,
            extra: done.extra,
            ..request
        }),
{
}

/// A member with the name of a field takes the place of the field.
pub proof fn law_a_member_takes_the_place_of_its_field(before: ChatCompletionRequest, after: ChatCompletionRequest)
    requires
        fields_follow(before, after),
    ensures
        before.extra@.contains_key("model"@) ==> before.extra@["model"@]@ == JsonView::Str(after.model@),
        before.extra@.contains_key("user"@) ==> before.extra@["user"@]@ == (match after.user {
            Some(text) => JsonView::Str(text@),
            None => JsonView::Null,
        }),
        before.extra@.contains_key("reasoning_effort"@) ==> before.extra@["reasoning_effort"@]@ == (
        match after.reasoning_effort {
            Some(text) => JsonView::Str(text@),
            None => JsonView::Null,
        }),
        before.extra@.contains_key("verbosity"@) ==> before.extra@["verbosity"@]@ == (match after.verbosity {
            Some(text) => JsonView::Str(text@),
            None => JsonView::Null,
        }),
        before.extra@.contains_key("stream"@) ==> before.extra@["stream"@]@ == (match after.stream {
            Some(b) => JsonView::Bool(b),
            None => JsonView::Null,
        }),
        before.extra@.contains_key("max_tokens"@) ==> before.extra@["max_tokens"@]@ == (match after.max_tokens {
            Some(n) => JsonView::Unsigned(n as u64),
            None => JsonView::Null,
        }),
        before.extra@.contains_key("thinking_budget"@) ==> before.extra@["thinking_budget"@]@ == (match after.thinking_budget {
            Some(n) => JsonView::Unsigned(n),
            None => JsonView::Null,
        }),
        before.extra@.contains_key("temperature"@) ==> before.extra@["temperature"@]@ == (match after.temperature {
            Some(n) => n@,
            None => JsonView::Null,
        }),
        before.extra@.contains_key("top_p"@) ==> before.extra@["top_p"@]@ == (match after.top_p {
            Some(n) => n@,
            None => JsonView::Null,
        }),
        before.extra@.contains_key("frequency_penalty"@) ==> before.extra@["frequency_penalty"@]@ == (
        match after.frequency_penalty {
            Some(n) => n@,
            None => JsonView::Null,
        }),
        before.extra@.contains_key("presence_penalty"@) ==> before.extra@["presence_penalty"@]@ == (
        match after.presence_penalty {
            Some(n) => n@,
            None => JsonView::Null,
        }),
{
}

/// What comes into a request: the prompt and the augmentation, each behind an empty
/// line.
pub proof fn law_what_comes_into_a_request(prompt: Seq<char>, augmentation: Seq<char>)
    ensures
        augmentation_block(prompt, augmentation) == "\n\n"@ + prompt + "\n\n"@ + augmentation,
{
}

/// A member `stop`, `tools` or `tool_choice` takes the place of the field: a text to stop at
/// is a list of it, and null is nothing.
pub proof fn law_lists_take_the_place_of_their_fields(
    before: ChatCompletionRequest,
    after: ChatCompletionRequest,
    text: Seq<char>,
    list: Seq<JsonView>,
    i: int,
)
    requires
        fields_follow(before, after),
    ensures
        before.extra@.contains_key("stop"@) && before.extra@["stop"@]@ == JsonView::Str(text) ==> after.stop is Some
            && after.stop->0@.len() == 1 && after.stop->0@[0]@ == text,
        before.extra@.contains_key("stop"@) && before.extra@["stop"@]@ == JsonView::Null ==> after.stop is None,
        before.extra@.contains_key("stop"@) && before.extra@["stop"@]@ == JsonView::Array(list) ==> after.stop is Some
            && after.stop->0@.len() == list.len() && (0 <= i < list.len() ==> list[i] == JsonView::Str(after.stop->0@[i]@)),
        before.extra@.contains_key("tools"@) && before.extra@["tools"@]@ == JsonView::Null ==> after.tools is None,
        before.extra@.contains_key("tools"@) && before.extra@["tools"@]@ == JsonView::Array(list) ==> after.tools is Some
            && after.tools->0@.len() == list.len() && (0 <= i < list.len() ==> tool_of(list[i]) == Some(after.tools->0@[i]@)),
        before.extra@.contains_key("tool_choice"@) && before.extra@["tool_choice"@]@ == JsonView::Null ==> after.tool_choice is
        None,
        before.extra@.contains_key("tool_choice"@) && before.extra@["tool_choice"@]@ == JsonView::Str(text)
            ==> after.tool_choice is Some && after.tool_choice->0@ == ToolChoiceView::Text(text),
{
    if before.extra@.contains_key("stop"@) && before.extra@["stop"@]@ == JsonView::Str(text) {
        let stop = texts(after.stop->0@);
        assert(stop == seq![text]);
        assert(stop[0] == after.stop->0@[0]@);
    }
    if list.len() > 0 {
        let k = if 0 <= i < list.len() {
            i
        } else {
            0
        };
        law_lists_are_read_one_by_one(list, list.len(), k);
        if before.extra@.contains_key("stop"@) && before.extra@["stop"@]@ == JsonView::Array(list) {
            assert(texts(after.stop->0@)[k] == after.stop->0@[k]@);
        }
        if before.extra@.contains_key("tools"@) && before.extra@["tools"@]@ == JsonView::Array(list) {
            assert(tool_views(after.tools->0@)[k] == after.tools->0@[k]@);
        }
    } else {
        if before.extra@.contains_key("stop"@) && before.extra@["stop"@]@ == JsonView::Array(list) {
            assert(texts(after.stop->0@).len() == 0);
        }
        if before.extra@.contains_key("tools"@) && before.extra@["tools"@]@ == JsonView::Array(list) {
            assert(tool_views(after.tools->0@).len() == 0);
        }
    }
}

/// Which names are those of fields.
pub proof fn law_which_names_are_fields(key: Seq<char>)
    ensures
        is_request_field(key) <==> key == "model"@ || key == "messages"@ || key == "temperature"@ || key == "top_p"@ || key == "max_tokens"@ || key == "stream"@ || key == "tools"@ || key == "tool_choice"@ || key == "stop"@ || key == "frequency_penalty"@ || key == "presence_penalty"@ || key == "user"@ || key == "reasoning_effort"@ || key == "verbosity"@ || key == "thinking_budget"@,
{
    let names = request_fields();
    assert(names[0] == "model"@);
    assert(names[1] == "messages"@);
    assert(names[2] == "temperature"@);
    assert(names[3] == "top_p"@);
    assert(names[4] == "max_tokens"@);
    assert(names[5] == "stream"@);
    assert(names[6] == "tools"@);
    assert(names[7] == "tool_choice"@);
    assert(names[8] == "stop"@);
    assert(names[9] == "frequency_penalty"@);
    assert(names[10] == "presence_penalty"@);
    assert(names[11] == "user"@);
    assert(names[12] == "reasoning_effort"@);
    assert(names[13] == "verbosity"@);
    assert(names[14] == "thinking_budget"@);
    if names.contains(key) {
        let k = choose|k: int| 0 <= k < names.len() && names[k] == key;
        assert(0 <= k < 15);
    }
}

/// Whether a member of a request, where it is there, is a number or null.
pub open spec fn number_or_null(r: ChatCompletionRequest, key: Seq<char>) -> bool {
    r.extra@.contains_key(key) ==> r.extra@[key]@ is Null || r.extra@[key]@ is Unsigned || r.extra@[key]@ is Negative
        || r.extra@[key]@ is Float
}

/// Whether a member of a request, where it is there, is a text or null.
pub open spec fn text_or_null(r: ChatCompletionRequest, key: Seq<char>) -> bool {
    r.extra@.contains_key(key) ==> r.extra@[key]@ is Null || r.extra@[key]@ is Str
}

/// A request whose further members do not give its messages, its tools or its choice of them
/// is refused where one of them has the name of a field and not its type, and only there.
pub proof fn law_which_members_are_refused(r: ChatCompletionRequest, block: Seq<char>)
    requires
        !r.extra@.contains_key("messages"@),
        !r.extra@.contains_key("tools"@),
        !r.extra@.contains_key("tool_choice"@),
        r.extra@.contains_key("stop"@) ==> !(r.extra@["stop"@]@ is Array),
    ensures
        typed_refusal(r, block) is None <==> {
            &&& r.extra@.contains_key("model"@) ==> r.extra@["model"@]@ is Str
            &&& number_or_null(r, "temperature"@)
            &&& number_or_null(r, "top_p"@)
            &&& number_or_null(r, "frequency_penalty"@)
            &&& number_or_null(r, "presence_penalty"@)
            &&& text_or_null(r, "user"@)
            &&& text_or_null(r, "reasoning_effort"@)
            &&& text_or_null(r, "verbosity"@)
            &&& text_or_null(r, "stop"@)
            &&& r.extra@.contains_key("stream"@) ==> r.extra@["stream"@]@ is Null || r.extra@["stream"@]@ is Bool
            &&& r.extra@.contains_key("thinking_budget"@) ==> r.extra@["thinking_budget"@]@ is Null
                || r.extra@["thinking_budget"@]@ is Unsigned
            &&& r.extra@.contains_key("max_tokens"@) ==> r.extra@["max_tokens"@]@ is Null || r.extra@["max_tokens"@]@ is Unsigned
                && r.extra@["max_tokens"@]@->Unsigned_0 <= u32::MAX
        },
{
}

/// A request that gives its messages once more is refused where they are no list, in the same
/// words as a request without messages.
pub proof fn law_messages_that_are_no_list_are_refused(r: ChatCompletionRequest, block: Seq<char>)
    requires
        r.extra@.contains_key("messages"@),
        !(r.extra@["messages"@]@ is Array),
    ensures
        typed_refusal(r, block) == Some("augment injection: request has no \"messages\" array"@),
{
}

/// The enriching backend is called under its URL, without the slashes at its end, at the
/// place of chat completions.
pub proof fn law_where_the_enriching_backend_is_called(
    config: &AugmentBackendConfig,
    backend: AugmentBackend,
    url: String,
)
    requires
        call_ensures(AugmentBackend::from_config, (config,), backend),
        call_ensures(AugmentBackend::endpoint, (&backend,), url),
    ensures
        url@ == trimmed_end(config.url@, '/') + "/v1/chat/completions"@,
        backend.model@ == config.model@,
        backend.prompt_file@ == config.prompt_file@,
        backend.request_prompt_file@ == config.request_prompt_file@,
        backend.timeout_secs == config.timeout_secs,
{
}

} // verus!
