//! The mutation vocabulary: byte tokens kept in `libafl`'s `Tokens` collection.
//!
//! `Tokens` keeps its entries in insertion order and refuses a token it already holds.
//! The collection stays opaque; `token_list` names what it holds and the functions
//! below say how each call changes that list.

use libafl::mutators::Tokens;
use vstd::prelude::*;

verus! {

/// `libafl::mutators::Tokens`.
#[verifier::external_type_specification]
#[verifier::external_body]
pub struct ExTokens(libafl::mutators::Tokens);

/// The tokens a `Tokens` value holds, in the order in which they were first added.
pub uninterp spec fn token_list(tokens: Tokens) -> Seq<Seq<u8>>;

/// Calls `Tokens::new`, which builds the default value: no tokens.
#[verifier::external_body]
pub(crate) fn tokens_new() -> (t: Tokens)
    ensures
        token_list(t) == Seq::<Seq<u8>>::empty(),
{
    Tokens::new()
}

/// Calls `Tokens::add_token`: a token already held is refused (`false`, nothing
/// changes); any other is appended after those already held (`true`).
#[verifier::external_body]
pub(crate) fn tokens_add(tokens: &mut Tokens, token: &Vec<u8>) -> (added: bool)
    ensures
        added == !token_list(*old(tokens)).contains(token@),
        added ==> token_list(*final(tokens)) == token_list(*old(tokens)).push(token@),
        !added ==> token_list(*final(tokens)) == token_list(*old(tokens)),
{
    tokens.add_token(token)
}

/// Calls `Tokens::len`, the number of tokens held.
#[verifier::external_body]
pub(crate) fn tokens_len(tokens: &Tokens) -> (n: usize)
    ensures
        n == token_list(*tokens).len(),
{
    tokens.len()
}

/// Calls `Tokens::tokens` and copies out the entry at `index`.
#[verifier::external_body]
pub(crate) fn tokens_get(tokens: &Tokens, index: usize) -> (token: Vec<u8>)
    requires
        index < token_list(*tokens).len(),
    ensures
        token@ == token_list(*tokens)[index as int],
{
    tokens.tokens()[index].clone()
}

/// Copies a dictionary with `Tokens`' derived `Clone`: the copy holds the same tokens
/// in the same order.
#[verifier::external_body]
pub(crate) fn tokens_copy(tokens: &Tokens) -> (copy: Tokens)
    ensures
        token_list(copy) == token_list(*tokens),
{
    tokens.clone()
}

/// A dictionary never holds the same token twice.
pub open spec fn distinct_tokens(list: Seq<Seq<u8>>) -> bool {
    forall|i: int, j: int| 0 <= i < j < list.len() ==> list[i] != list[j]
}

/// No token of the list is empty.
pub open spec fn no_empty_tokens(list: Seq<Seq<u8>>) -> bool {
    forall|i: int| 0 <= i < list.len() ==> (#[trigger] list[i]).len() > 0
}

/// What a dictionary holds after `extra` has been offered to it, token by token:
/// each token not yet held is appended; an empty token, or one already held, is
/// passed over.
pub open spec fn merged(list: Seq<Seq<u8>>, extra: Seq<Seq<u8>>) -> Seq<Seq<u8>>
    decreases extra.len(),
{
    if extra.len() == 0 {
        list
    } else if extra[0].len() == 0 || list.contains(extra[0]) {
        merged(list, extra.drop_first())
    } else {
        merged(list.push(extra[0]), extra.drop_first())
    }
}

/// A token is in the merged list exactly if it was held before or is a non-empty
/// token of what was offered.
pub proof fn lemma_merged_members(list: Seq<Seq<u8>>, extra: Seq<Seq<u8>>, token: Seq<u8>)
    ensures
        merged(list, extra).contains(token) <==> list.contains(token) || (extra.contains(token)
            && token.len() > 0),
    decreases extra.len(),
{
    if extra.len() == 0 {
    } else {
        let rest = extra.drop_first();
        assert(extra.contains(token) <==> (extra[0] == token || rest.contains(token))) by {
            if extra.contains(token) {
                let k = choose|k: int| 0 <= k < extra.len() && extra[k] == token;
                if k > 0 {
                    assert(rest[k - 1] == token);
                }
            }
            if rest.contains(token) {
                let k = choose|k: int| 0 <= k < rest.len() && rest[k] == token;
                assert(extra[k + 1] == token);
            }
        }
        if extra[0].len() == 0 || list.contains(extra[0]) {
            lemma_merged_members(list, rest, token);
        } else {
            let grown = list.push(extra[0]);
            lemma_merged_members(grown, rest, token);
            assert(grown.contains(token) <==> (list.contains(token) || extra[0] == token)) by {
                if list.contains(token) {
                    let k = choose|k: int| 0 <= k < list.len() && list[k] == token;
                    assert(grown[k] == token);
                }
                if extra[0] == token {
                    assert(grown[list.len() as int] == token);
                }
            }
        }
    }
}

/// Merging keeps what was held, in place, at the front.
pub proof fn lemma_merged_extends(list: Seq<Seq<u8>>, extra: Seq<Seq<u8>>)
    ensures
        list.len() <= merged(list, extra).len(),
        merged(list, extra).subrange(0, list.len() as int) == list,
    decreases extra.len(),
{
    if extra.len() == 0 {
        assert(list.subrange(0, list.len() as int) =~= list);
    } else if extra[0].len() == 0 || list.contains(extra[0]) {
        lemma_merged_extends(list, extra.drop_first());
    } else {
        let grown = list.push(extra[0]);
        lemma_merged_extends(grown, extra.drop_first());
        let m = merged(grown, extra.drop_first());
        assert(m.subrange(0, list.len() as int) =~= m.subrange(0, grown.len() as int).subrange(
            0,
            list.len() as int,
        ));
        assert(grown.subrange(0, list.len() as int) =~= list);
    }
}

/// Merging into a list without repetitions gives a list without repetitions.
pub proof fn lemma_merged_keeps_tokens_distinct(list: Seq<Seq<u8>>, extra: Seq<Seq<u8>>)
    requires
        distinct_tokens(list),
    ensures
        distinct_tokens(merged(list, extra)),
    decreases extra.len(),
{
    if extra.len() == 0 {
    } else if extra[0].len() == 0 || list.contains(extra[0]) {
        lemma_merged_keeps_tokens_distinct(list, extra.drop_first());
    } else {
        let grown = list.push(extra[0]);
        assert forall|i: int, j: int| 0 <= i < j < grown.len() implies grown[i] != grown[j] by {
            if j == list.len() {
                assert(list[i] == grown[i]);
            }
        }
        lemma_merged_keeps_tokens_distinct(grown, extra.drop_first());
    }
}

/// Merging into a list without empty tokens gives a list without empty tokens.
pub proof fn lemma_merged_keeps_tokens_nonempty(list: Seq<Seq<u8>>, extra: Seq<Seq<u8>>)
    requires
        no_empty_tokens(list),
    ensures
        no_empty_tokens(merged(list, extra)),
    decreases extra.len(),
{
    if extra.len() == 0 {
    } else if extra[0].len() == 0 || list.contains(extra[0]) {
        lemma_merged_keeps_tokens_nonempty(list, extra.drop_first());
    } else {
        lemma_merged_keeps_tokens_nonempty(list.push(extra[0]), extra.drop_first());
    }
}

/// Offers every token of `extra` to the dictionary, first to last. This is the union
/// that `+=` computes on two token collections, except that an empty token, which no
/// mutation can use, is passed over.
pub fn tokens_extend(tokens: &mut Tokens, extra: &Vec<Vec<u8>>)
    ensures
        token_list(*final(tokens)) == merged(token_list(*old(tokens)), extra.deep_view()),
        no_empty_tokens(token_list(*old(tokens))) ==> no_empty_tokens(token_list(*final(tokens))),
{
    proof {
        if no_empty_tokens(token_list(*tokens)) {
            lemma_merged_keeps_tokens_nonempty(token_list(*tokens), extra.deep_view());
        }
    }
    let ghost start = token_list(*tokens);
    let ghost all = extra.deep_view();
    let mut i: usize = 0;
    proof {
        assert(all.skip(0) =~= all);
    }
    while i < extra.len()
        invariant
            i <= extra.len(),
            all == extra.deep_view(),
            all.len() == extra.len(),
            merged(start, all) == merged(token_list(*tokens), all.skip(i as int)),
        decreases extra.len() - i,
    {
        let ghost before = token_list(*tokens);
        let ghost rest = all.skip(i as int);
        proof {
            assert(rest[0] == all[i as int]);
            assert(all[i as int] == extra[i as int]@);
            assert(rest.drop_first() =~= all.skip(i + 1));
        }
        if extra[i].len() > 0 {
            let _ = tokens_add(tokens, &extra[i]);
        }
        i = i + 1;
    }
    proof {
        assert(all.skip(i as int).len() == 0);
    }
}

/// Builds the dictionary of a campaign. A state that already carries one keeps it.
/// Otherwise the tokens read from the dictionary file come first, those extracted
/// from the target follow, and an empty result is no dictionary at all.
pub fn load_dictionary(
    existing: Option<Tokens>,
    from_file: &Vec<Vec<u8>>,
    from_target: &Vec<Vec<u8>>,
) -> (dictionary: Option<Tokens>)
    ensures
        existing is Some ==> dictionary == existing,
        existing is None ==> {
            let all = merged(
                merged(Seq::<Seq<u8>>::empty(), from_file.deep_view()),
                from_target.deep_view(),
            );
            &&& dictionary is Some <==> all.len() > 0
            &&& dictionary is Some ==> token_list(dictionary->0) == all && no_empty_tokens(all)
        },
{
    match existing {
        Some(tokens) => Some(tokens),
        None => {
            let mut tokens = tokens_new();
            tokens_extend(&mut tokens, from_file);
            tokens_extend(&mut tokens, from_target);
            if tokens_len(&tokens) == 0 {
                None
            } else {
                Some(tokens)
            }
        },
    }
}

/// Whether the mutation stages can work with a dictionary: none of its tokens is
/// empty.
pub fn is_usable(tokens: &Tokens) -> (usable: bool)
    ensures
        usable == no_empty_tokens(token_list(*tokens)),
{
    let n = tokens_len(tokens);
    let mut i: usize = 0;
    while i < n
        invariant
            i <= n,
            n == token_list(*tokens).len(),
            forall|k: int| 0 <= k < i ==> (#[trigger] token_list(*tokens)[k]).len() > 0,
        decreases n - i,
    {
        let token = tokens_get(tokens, i);
        if token.len() == 0 {
            assert(token_list(*tokens)[i as int].len() == 0);
            return false;
        }
        i = i + 1;
    }
    true
}

/// The tokens of a dictionary, copied out in order.
pub fn tokens_to_vec(tokens: &Tokens) -> (list: Vec<Vec<u8>>)
    ensures
        list.deep_view() == token_list(*tokens),
{
    let n = tokens_len(tokens);
    let mut list: Vec<Vec<u8>> = Vec::new();
    let mut i: usize = 0;
    while i < n
        invariant
            i <= n,
            n == token_list(*tokens).len(),
            list@.len() == i,
            forall|k: int| 0 <= k < i ==> (#[trigger] list@[k])@ == token_list(*tokens)[k],
        decreases n - i,
    {
        list.push(tokens_get(tokens, i));
        i = i + 1;
    }
    proof {
        assert forall|k: int| 0 <= k < n implies list.deep_view()[k] == token_list(*tokens)[k] by {
            assert(list.deep_view()[k] == list@[k].deep_view());
            assert(list@[k].deep_view() =~= list@[k]@);
        }
        assert(list.deep_view() =~= token_list(*tokens));
    }
    list
}

} // verus!
