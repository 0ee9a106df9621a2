//! The tokens that the receiver gives out, one for each file that it selects.

use crate::string_map::{texts, StringMap};
use vstd::prelude::*;

verus! {

/// A token for each selected file, under the id of the file.
pub type FileTokens = StringMap<String>;

/// A digit of a number in base 16, in lower case.
pub open spec fn is_hex_digit(c: char) -> bool {
    '0' <= c <= '9' || 'a' <= c <= 'f'
}

/// The text of a random UUID: 32 digits in groups of 8, 4, 4, 4 and 12 with a
/// hyphen between them, where the third group starts with the version, 4, and
/// the fourth with the variant.
pub open spec fn is_random_uuid(text: Seq<char>) -> bool {
    &&& text.len() == 36
    &&& forall|i: int|
        0 <= i < 36 ==> if i == 8 || i == 13 || i == 18 || i == 23 {
            #[trigger] text[i] == '-'
        } else {
            is_hex_digit(text[i])
        }
    &&& text[14] == '4'
    &&& text[19] == '8' || text[19] == '9' || text[19] == 'a' || text[19] == 'b'
}

/// `Uuid::new_v4` and its text. Which UUID it is, is left to chance; that the
/// system has random bytes to give is not claimed.
#[verifier::external_body]
fn random_uuid() -> (text: String)
    ensures
        is_random_uuid(text@),
{
    uuid::Uuid::new_v4().to_string()
}

/// What a call of `f` gave.
fn ask<F: Fn() -> String>(f: F) -> (text: String)
    requires
        f.requires(()),
    ensures
        f.ensures((), text),
{
    f()
}

/// `text` came out of a call of `Uuid::new_v4`: it was not made up.
pub closed spec fn was_drawn(text: Seq<char>) -> bool {
    exists|s: String| s@ == text && #[trigger] call_ensures(random_uuid, (), s)
}

/// An id for a new session.
pub fn new_session_id() -> (id: String)
    ensures
        is_random_uuid(id@),
        was_drawn(id@),
{
    ask(random_uuid)
}

/// The token for the file with the number `nth`: a draw of its own.
fn draw_token(nth: usize) -> (token: String)
    ensures
        is_random_uuid(token@),
        was_drawn(token@),
{
    ask(random_uuid)
}

/// `text` is what the draw for the file with the number `nth` gave. What the draw
/// for another file gave tells nothing of it.
pub closed spec fn was_drawn_for(nth: int, text: Seq<char>) -> bool {
    exists|s: String| s@ == text && #[trigger] call_ensures(draw_token, (nth as usize,), s)
}

/// What `draw` gives for each number below `n`, a call for each.
fn draw_each<F: Fn(usize) -> String>(n: usize, draw: F) -> (drawn: Vec<String>)
    requires
        forall|i: usize| i < n ==> #[trigger] draw.requires((i,)),
    ensures
        drawn@.len() == n,
        forall|i: int| 0 <= i < n ==> draw.ensures((i as usize,), #[trigger] drawn@[i]),
{
    let mut drawn: Vec<String> = Vec::new();
    let mut i: usize = 0;
    while i < n
        invariant
            i <= n,
            drawn@.len() == i,
            forall|j: usize| j < n ==> #[trigger] draw.requires((j,)),
            forall|j: int| 0 <= j < i ==> draw.ensures((j as usize,), #[trigger] drawn@[j]),
        decreases n - i,
    {
        drawn.push(draw(i));
        i += 1;
    }
    drawn
}

/// The map from `ids[i]` to `tokens[i]`, for each `i`; of the entries for one
/// id, the last one counts.
pub open spec fn paired(ids: Seq<Seq<char>>, tokens: Seq<Seq<char>>) -> Map<Seq<char>, Seq<char>>
    decreases ids.len(),
{
    if ids.len() == 0 || tokens.len() == 0 {
        Map::empty()
    } else {
        paired(ids.drop_last(), tokens.drop_last()).insert(ids.last(), tokens.last())
    }
}

/// Gives the file `ids[i]` the token `tokens[i]`.
pub fn pair_tokens(ids: &Vec<String>, tokens: &Vec<String>) -> (map: FileTokens)
    requires
        ids@.len() == tokens@.len(),
    ensures
        map@ == paired(texts(ids@), texts(tokens@)),
{
    let mut map: FileTokens = StringMap::new();
    let mut i: usize = 0;
    assert(texts(ids@).take(0) =~= Seq::<Seq<char>>::empty());
    while i < ids.len()
        invariant
            i <= ids@.len(),
            ids@.len() == tokens@.len(),
            map@ == paired(texts(ids@).take(i as int), texts(tokens@).take(i as int)),
        decreases ids@.len() - i,
    {
        map.insert(ids[i].clone(), tokens[i].clone());
        proof {
            let a = texts(ids@);
            let b = texts(tokens@);
            assert(a.take(i + 1).drop_last() =~= a.take(i as int));
            assert(b.take(i + 1).drop_last() =~= b.take(i as int));
        }
        i += 1;
    }
    assert(texts(ids@).take(i as int) =~= texts(ids@));
    assert(texts(tokens@).take(i as int) =~= texts(tokens@));
    map
}

/// `tokens` are separate draws, one for each number.
pub open spec fn separate_draws(tokens: Seq<Seq<char>>) -> bool {
    forall|i: int|
        0 <= i < tokens.len() ==> is_random_uuid(#[trigger] tokens[i]) && was_drawn(tokens[i])
            && was_drawn_for(i, tokens[i])
}

/// Gives each selected file a token of its own: a draw for each, and the draw for
/// a file is its token.
pub fn assign_tokens(selected: &Vec<String>) -> (map: FileTokens)
    ensures
        map@.dom() == texts(selected@).to_set(),
        forall|id: Seq<char>| map@.contains_key(id) ==> is_random_uuid(#[trigger] map@[id]),
        exists|tokens: Seq<Seq<char>>| #[trigger]
            separate_draws(tokens) && tokens.len() == selected@.len() && map@ == paired(
                texts(selected@),
                tokens,
            ),
{
    let tokens = draw_each(selected.len(), draw_token);
    proof {
        let ids = texts(selected@);
        assert forall|i: int| 0 <= i < texts(tokens@).len() implies is_random_uuid(
            #[trigger] texts(tokens@)[i],
        ) && was_drawn(texts(tokens@)[i]) && was_drawn_for(i, texts(tokens@)[i]) by {
            assert(call_ensures(draw_token, (i as usize,), tokens@[i]));
        }
        assert(separate_draws(texts(tokens@)));
        law_every_selected_file_has_a_token(ids, texts(tokens@));
        let map = paired(ids, texts(tokens@));
        assert forall|id: Seq<char>| map.contains_key(id) implies is_random_uuid(
            #[trigger] map[id],
        ) by {
            let j = choose|j: int|
                0 <= j < ids.len() && ids[j] == id && map[id] == #[trigger] texts(tokens@)[j];
            assert(is_random_uuid(texts(tokens@)[j]));
        }
    }
    pair_tokens(selected, &tokens)
}

/// The token of a file is the one drawn for it, the last one where the file is
/// named more than once; so where the draws differ, no two files share a token.
pub proof fn law_a_file_has_the_token_drawn_for_it(
    ids: Seq<Seq<char>>,
    tokens: Seq<Seq<char>>,
    i: int,
    j: int,
)
    requires
        ids.len() == tokens.len(),
        0 <= i < ids.len(),
        0 <= j < ids.len(),
        forall|k: int| i < k < ids.len() ==> #[trigger] ids[k] != ids[i],
        forall|k: int| j < k < ids.len() ==> #[trigger] ids[k] != ids[j],
    ensures
        paired(ids, tokens).contains_key(ids[i]),
        paired(ids, tokens)[ids[i]] == tokens[i],
        i != j && tokens[i] != tokens[j] ==> paired(ids, tokens)[ids[i]] != paired(
            ids,
            tokens,
        )[ids[j]],
{
    lemma_token_of(ids, tokens, i);
    lemma_token_of(ids, tokens, j);
}

/// The token under the last mention of a file.
proof fn lemma_token_of(ids: Seq<Seq<char>>, tokens: Seq<Seq<char>>, i: int)
    requires
        ids.len() == tokens.len(),
        0 <= i < ids.len(),
        forall|k: int| i < k < ids.len() ==> #[trigger] ids[k] != ids[i],
    ensures
        paired(ids, tokens).contains_key(ids[i]),
        paired(ids, tokens)[ids[i]] == tokens[i],
    decreases ids.len(),
{
    if i < ids.len() - 1 {
        let fewer = ids.drop_last();
        assert(ids[ids.len() - 1] != ids[i]);
        assert forall|k: int| i < k < fewer.len() implies #[trigger] fewer[k] != fewer[i] by {
            assert(ids[k] != ids[i]);
        }
        lemma_token_of(fewer, tokens.drop_last(), i);
    }
}

/// A token is given to each selected file and to no other, and it is one that
/// was drawn for that file.
pub proof fn law_every_selected_file_has_a_token(ids: Seq<Seq<char>>, tokens: Seq<Seq<char>>)
    requires
        ids.len() == tokens.len(),
    ensures
        paired(ids, tokens).dom() == ids.to_set(),
        forall|id: Seq<char>| #[trigger]
            paired(ids, tokens).contains_key(id) ==> exists|i: int|
                0 <= i < ids.len() && ids[i] == id && paired(ids, tokens)[id] == #[trigger] tokens[i],
    decreases ids.len(),
{
    let map = paired(ids, tokens);
    if ids.len() > 0 {
        let fewer = paired(ids.drop_last(), tokens.drop_last());
        law_every_selected_file_has_a_token(ids.drop_last(), tokens.drop_last());
        assert forall|id: Seq<char>| map.contains_key(id) <==> ids.to_set().contains(id) by {
            if ids.contains(id) {
                let i = choose|i: int| 0 <= i < ids.len() && ids[i] == id;
                if i < ids.len() - 1 {
                    assert(ids.drop_last()[i] == id);
                    assert(ids.drop_last().contains(id));
                    assert(ids.drop_last().to_set().contains(id));
                }
            }
            if map.contains_key(id) && id != ids.last() {
                assert(ids.drop_last().to_set().contains(id));
                let i = choose|i: int| 0 <= i < ids.len() - 1 && ids.drop_last()[i] == id;
                assert(ids[i] == id);
            }
            if id == ids.last() {
                assert(ids[ids.len() - 1] == id);
            }
        }
        assert(map.dom() =~= ids.to_set());
        assert forall|id: Seq<char>| #[trigger] map.contains_key(id) implies exists|i: int|
            0 <= i < ids.len() && ids[i] == id && map[id] == #[trigger] tokens[i] by {
            if id == ids.last() {
                assert(map[id] == tokens[ids.len() - 1]);
            } else {
                assert(fewer.contains_key(id));
                let i = choose|i: int|
                    0 <= i < ids.len() - 1 && ids.drop_last()[i] == id && fewer[id]
                        == #[trigger] tokens.drop_last()[i];
                assert(map[id] == tokens[i]);
            }
        }
    } else {
        assert(map.dom() =~= ids.to_set());
    }
}

} // verus!
