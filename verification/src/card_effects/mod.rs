use vstd::prelude::*;

pub mod effects;
pub mod evaluate;
pub mod error;
pub mod parse;
pub mod perform;
pub mod trigger;

use self::effects::{
    action_to_tokens, action_views, condition_to_tokens, condition_views, lemma_action_views,
    lemma_action_views_push, lemma_condition_views, lemma_condition_views_push, parse_action,
    parse_condition, parse_vec_action, parse_vec_condition, spec_action_tokens,
    spec_condition_tokens, spec_parse_action, spec_parse_condition, spec_parse_vec_action,
    spec_parse_vec_condition, Action, ActionV, Condition, ConditionV,
};
use self::error::{Error, ErrorV};
use self::parse::{
    lemma_views_push, read_tokens, spec_read_tokens, spec_text, tokens_views, Tokens, TokensV,
};

verus! {

/// The items that a token tree is read from: the word itself, or the items of the list.
pub open spec fn token_items(t: TokensV) -> Seq<TokensV> {
    match t {
        TokensV::Token(_) => seq![t],
        TokensV::List(v) => v,
    }
}

fn items_of(t: Tokens) -> (res: Vec<Tokens>)
    ensures
        tokens_views(res@) == token_items(t@),
{
    match t {
        Tokens::Token(s) => {
            let mut v: Vec<Tokens> = Vec::new();
            let t2 = Tokens::Token(s);
            proof {
                lemma_views_push(v@, t2);
                assert(tokens_views(v@) =~= Seq::<TokensV>::empty());
            }
            v.push(t2);
            proof {
                assert(tokens_views(v@) =~= seq![t2@]);
            }
            v
        },
        Tokens::List(v) => v,
    }
}

/// The effect actions that stand for "no effect": a single `no_action`.
pub fn skip_default_actions(actions: &Vec<Action>) -> (res: bool)
    ensures
        res == (action_views(actions@) == seq![ActionV::Noop]),
{
    proof {
        lemma_action_views(actions@);
    }
    let res = actions.len() == 1 && matches!(actions[0], Action::Noop);
    proof {
        if res {
            assert(action_views(actions@) =~= seq![ActionV::Noop]);
        }
        if action_views(actions@) == seq![ActionV::Noop] {
            assert(action_views(actions@)[0] == actions@[0]@);
        }
    }
    res
}

/// The effect conditions that stand for "always": a single `true`.
pub fn skip_default_conditions(conditions: &Vec<Condition>) -> (res: bool)
    ensures
        res == (condition_views(conditions@) == seq![ConditionV::True]),
{
    proof {
        lemma_condition_views(conditions@);
    }
    let res = conditions.len() == 1 && matches!(conditions[0], Condition::True);
    proof {
        if res {
            assert(condition_views(conditions@) =~= seq![ConditionV::True]);
        }
        if condition_views(conditions@) == seq![ConditionV::True] {
            assert(condition_views(conditions@)[0] == conditions@[0]@);
        }
    }
    res
}

/// A line without the brackets that enclose it.
pub open spec fn strip_brackets(s: Seq<char>) -> Seq<char> {
    if s.len() >= 2 && s[0] == '(' && s[s.len() - 1] == ')' {
        s.subrange(1, s.len() - 1)
    } else {
        s
    }
}

fn strip_outer_brackets(s: &String) -> (res: String)
    ensures
        res@ == strip_brackets(s@),
{
    let a = s.as_str();
    let n = a.unicode_len();
    if n >= 2 && a.get_char(0) == '(' && a.get_char(n - 1) == ')' {
        let inner = a.substring_char(1, n - 1);
        String::from_str(inner)
    } else {
        s.clone()
    }
}

/// Lines joined with line breaks.
pub open spec fn join_lines(ls: Seq<Seq<char>>) -> Seq<char>
    decreases ls.len(),
{
    if ls.len() == 0 {
        Seq::empty()
    } else if ls.len() == 1 {
        ls[0]
    } else {
        join_lines(ls.drop_last()) + seq!['\n'] + ls.last()
    }
}

/// A block of lines: a final line break is added when there is more than one line.
pub open spec fn block_text(ls: Seq<Seq<char>>) -> Seq<char> {
    let s = join_lines(ls);
    if s.contains('\n') {
        s + seq!['\n']
    } else {
        s
    }
}

fn has_line_break(s: &String) -> (res: bool)
    ensures
        res == s@.contains('\n'),
{
    let a = s.as_str();
    let n = a.unicode_len();
    let mut i: usize = 0;
    while i < n
        invariant
            n == a@.len(),
            a@ == s@,
            0 <= i <= n,
            forall|j: int| 0 <= j < i ==> a@[j] != '\n',
        decreases n - i,
    {
        if a.get_char(i) == '\n' {
            return true;
        }
        i = i + 1;
    }
    false
}

pub open spec fn spec_actions_from_tokens(t: TokensV) -> Result<Seq<ActionV>, ErrorV> {
    match spec_parse_vec_action(token_items(t)) {
        Ok((x, r)) => if r.len() == 0 {
            Ok(x)
        } else {
            Err(ErrorV::RemainingTokens)
        },
        Err(e) => Err(e),
    }
}

/// Reads the actions of an effect from a token tree, which it must use up.
pub fn actions_from_tokens(t: Tokens) -> (res: Result<Vec<Action>, Error>)
    ensures
        match spec_actions_from_tokens(t@) {
            Ok(v) => res matches Ok(x) && action_views(x@) == v,
            Err(e) => res matches Err(err) && err@ == e,
        },
{
    let items = items_of(t);
    match parse_vec_action(items.as_slice()) {
        Ok((x, r)) => {
            if r.len() == 0 {
                Ok(x)
            } else {
                Err(Error::RemainingTokens)
            }
        },
        Err(e) => Err(e),
    }
}

/// What the text of the actions of an effect reads as; an empty text stands for the default.
pub open spec fn spec_parse_effect_actions(s: Seq<char>) -> Result<Seq<ActionV>, ErrorV> {
    match spec_read_tokens(s) {
        Ok(t) => spec_actions_from_tokens(t),
        Err(ErrorV::NoTokens) => Ok(seq![ActionV::Noop]),
        Err(e) => Err(e),
    }
}

/// Reads the actions of an effect from the text of a card.
pub fn parse_effect_actions(s: &str) -> (res: Result<Vec<Action>, Error>)
    ensures
        match spec_parse_effect_actions(s@) {
            Ok(v) => res matches Ok(x) && action_views(x@) == v,
            Err(e) => res matches Err(err) && err@ == e,
        },
{
    match read_tokens(s) {
        Ok(t) => actions_from_tokens(t),
        Err(Error::NoTokens) => {
            let mut d: Vec<Action> = Vec::new();
            proof {
                lemma_action_views_push(d@, Action::Noop);
                assert(action_views(d@) =~= Seq::<ActionV>::empty());
            }
            d.push(Action::Noop);
            proof {
                assert(action_views(d@) =~= seq![ActionV::Noop]);
            }
            Ok(d)
        },
        Err(e) => Err(e),
    }
}

pub open spec fn spec_conditions_from_tokens(t: TokensV) -> Result<Seq<ConditionV>, ErrorV> {
    match spec_parse_vec_condition(token_items(t)) {
        Ok((x, r)) => if r.len() == 0 {
            Ok(x)
        } else {
            Err(ErrorV::RemainingTokens)
        },
        Err(e) => Err(e),
    }
}

/// Reads the conditions of an effect from a token tree, which it must use up.
pub fn conditions_from_tokens(t: Tokens) -> (res: Result<Vec<Condition>, Error>)
    ensures
        match spec_conditions_from_tokens(t@) {
            Ok(v) => res matches Ok(x) && condition_views(x@) == v,
            Err(e) => res matches Err(err) && err@ == e,
        },
{
    let items = items_of(t);
    match parse_vec_condition(items.as_slice()) {
        Ok((x, r)) => {
            if r.len() == 0 {
                Ok(x)
            } else {
                Err(Error::RemainingTokens)
            }
        },
        Err(e) => Err(e),
    }
}

/// What the text of the conditions of an effect reads as; an empty text stands for the default.
pub open spec fn spec_parse_effect_conditions(s: Seq<char>) -> Result<Seq<ConditionV>, ErrorV> {
    match spec_read_tokens(s) {
        Ok(t) => spec_conditions_from_tokens(t),
        Err(ErrorV::NoTokens) => Ok(seq![ConditionV::True]),
        Err(e) => Err(e),
    }
}

/// Reads the conditions of an effect from the text of a card.
pub fn parse_effect_conditions(s: &str) -> (res: Result<Vec<Condition>, Error>)
    ensures
        match spec_parse_effect_conditions(s@) {
            Ok(v) => res matches Ok(x) && condition_views(x@) == v,
            Err(e) => res matches Err(err) && err@ == e,
        },
{
    match read_tokens(s) {
        Ok(t) => conditions_from_tokens(t),
        Err(Error::NoTokens) => {
            let mut d: Vec<Condition> = Vec::new();
            proof {
                lemma_condition_views_push(d@, Condition::True);
                assert(condition_views(d@) =~= Seq::<ConditionV>::empty());
            }
            d.push(Condition::True);
            proof {
                assert(condition_views(d@) =~= seq![ConditionV::True]);
            }
            Ok(d)
        },
        Err(e) => Err(e),
    }
}

pub open spec fn spec_action_from_tokens(t: TokensV) -> Result<ActionV, ErrorV> {
    match spec_parse_action(token_items(t)) {
        Ok((x, r)) => if r.len() == 0 {
            Ok(x)
        } else {
            Err(ErrorV::RemainingTokens)
        },
        Err(e) => Err(e),
    }
}

/// Reads one action from a token tree, which it must use up.
pub fn action_from_tokens(t: Tokens) -> (res: Result<Action, Error>)
    ensures
        match spec_action_from_tokens(t@) {
            Ok(v) => res matches Ok(x) && x@ == v,
            Err(e) => res matches Err(err) && err@ == e,
        },
{
    let items = items_of(t);
    match parse_action(items.as_slice()) {
        Ok((x, r)) => {
            if r.len() == 0 {
                Ok(x)
            } else {
                Err(Error::RemainingTokens)
            }
        },
        Err(e) => Err(e),
    }
}

/// What the text of one action reads as; an empty text stands for the default.
pub open spec fn spec_parse_effect_action(s: Seq<char>) -> Result<ActionV, ErrorV> {
    match spec_read_tokens(s) {
        Ok(t) => spec_action_from_tokens(t),
        Err(ErrorV::NoTokens) => Ok(ActionV::Noop),
        Err(e) => Err(e),
    }
}

/// Reads one action from the text of a card.
pub fn parse_effect_action(s: &str) -> (res: Result<Action, Error>)
    ensures
        match spec_parse_effect_action(s@) {
            Ok(v) => res matches Ok(x) && x@ == v,
            Err(e) => res matches Err(err) && err@ == e,
        },
{
    match read_tokens(s) {
        Ok(t) => action_from_tokens(t),
        Err(Error::NoTokens) => {
            Ok(Action::Noop)
        },
        Err(e) => Err(e),
    }
}

pub open spec fn spec_condition_from_tokens(t: TokensV) -> Result<ConditionV, ErrorV> {
    match spec_parse_condition(token_items(t)) {
        Ok((x, r)) => if r.len() == 0 {
            Ok(x)
        } else {
            Err(ErrorV::RemainingTokens)
        },
        Err(e) => Err(e),
    }
}

/// Reads one condition from a token tree, which it must use up.
pub fn condition_from_tokens(t: Tokens) -> (res: Result<Condition, Error>)
    ensures
        match spec_condition_from_tokens(t@) {
            Ok(v) => res matches Ok(x) && x@ == v,
            Err(e) => res matches Err(err) && err@ == e,
        },
{
    let items = items_of(t);
    match parse_condition(items.as_slice()) {
        Ok((x, r)) => {
            if r.len() == 0 {
                Ok(x)
            } else {
                Err(Error::RemainingTokens)
            }
        },
        Err(e) => Err(e),
    }
}

/// What the text of one condition reads as; an empty text stands for the default.
pub open spec fn spec_parse_effect_condition(s: Seq<char>) -> Result<ConditionV, ErrorV> {
    match spec_read_tokens(s) {
        Ok(t) => spec_condition_from_tokens(t),
        Err(ErrorV::NoTokens) => Ok(ConditionV::True),
        Err(e) => Err(e),
    }
}

/// Reads one condition from the text of a card.
pub fn parse_effect_condition(s: &str) -> (res: Result<Condition, Error>)
    ensures
        match spec_parse_effect_condition(s@) {
            Ok(v) => res matches Ok(x) && x@ == v,
            Err(e) => res matches Err(err) && err@ == e,
        },
{
    match read_tokens(s) {
        Ok(t) => condition_from_tokens(t),
        Err(Error::NoTokens) => {
            Ok(Condition::True)
        },
        Err(e) => Err(e),
    }
}

pub open spec fn spec_actions_lines(s: Seq<ActionV>) -> Seq<Seq<char>> {
    s.map_values(|x: ActionV| strip_brackets(spec_text(spec_action_tokens(x))))
}

/// The text of actions: one line for each, without the brackets around a whole line, and a
/// final line break when there are several lines.
pub open spec fn spec_actions_text(s: Seq<ActionV>) -> Seq<char> {
    block_text(spec_actions_lines(s))
}

pub fn actions_text(items: &[Action]) -> (res: String)
    ensures
        res@ == spec_actions_text(action_views(items@)),
{
    proof {
        lemma_action_views(items@);
        reveal_strlit("\n");
    }
    let ghost lines = spec_actions_lines(action_views(items@));
    let mut out = String::new();
    let mut i: usize = 0;
    while i < items.len()
        invariant
            0 <= i <= items.len(),
            lines == spec_actions_lines(action_views(items@)),
            lines.len() == items@.len(),
            action_views(items@).len() == items@.len(),
            forall|j: int| 0 <= j < items@.len() ==> #[trigger] action_views(items@)[j] == items@[j]@,
            out@ == join_lines(lines.take(i as int)),
        decreases items.len() - i,
    {
        let t = action_to_tokens(&items[i]).to_text();
        let line = strip_outer_brackets(&t);
        if i > 0 {
            out.append("\n");
        }
        out.append(line.as_str());
        proof {
            reveal_strlit("\n");
            let a = lines.take(i + 1);
            assert(a.drop_last() =~= lines.take(i as int));
            assert(lines[i as int] == line@);
            assert(a.last() == line@);
            if i == 0 {
                assert(join_lines(a) == a[0]);
                assert(out@ =~= join_lines(a));
            } else {
                assert(join_lines(a) == join_lines(a.drop_last()) + seq!['\n'] + a.last());
                assert(out@ =~= join_lines(a));
            }
        }
        i = i + 1;
    }
    proof {
        assert(lines.take(items@.len() as int) =~= lines);
    }
    if has_line_break(&out) {
        out.append("\n");
    }
    out
}

pub open spec fn spec_conditions_lines(s: Seq<ConditionV>) -> Seq<Seq<char>> {
    s.map_values(|x: ConditionV| strip_brackets(spec_text(spec_condition_tokens(x))))
}

/// The text of conditions: one line for each, without the brackets around a whole line, and a
/// final line break when there are several lines.
pub open spec fn spec_conditions_text(s: Seq<ConditionV>) -> Seq<char> {
    block_text(spec_conditions_lines(s))
}

pub fn conditions_text(items: &[Condition]) -> (res: String)
    ensures
        res@ == spec_conditions_text(condition_views(items@)),
{
    proof {
        lemma_condition_views(items@);
        reveal_strlit("\n");
    }
    let ghost lines = spec_conditions_lines(condition_views(items@));
    let mut out = String::new();
    let mut i: usize = 0;
    while i < items.len()
        invariant
            0 <= i <= items.len(),
            lines == spec_conditions_lines(condition_views(items@)),
            lines.len() == items@.len(),
            condition_views(items@).len() == items@.len(),
            forall|j: int| 0 <= j < items@.len() ==> #[trigger] condition_views(items@)[j] == items@[j]@,
            out@ == join_lines(lines.take(i as int)),
        decreases items.len() - i,
    {
        let t = condition_to_tokens(&items[i]).to_text();
        let line = strip_outer_brackets(&t);
        if i > 0 {
            out.append("\n");
        }
        out.append(line.as_str());
        proof {
            reveal_strlit("\n");
            let a = lines.take(i + 1);
            assert(a.drop_last() =~= lines.take(i as int));
            assert(lines[i as int] == line@);
            assert(a.last() == line@);
            if i == 0 {
                assert(join_lines(a) == a[0]);
                assert(out@ =~= join_lines(a));
            } else {
                assert(join_lines(a) == join_lines(a.drop_last()) + seq!['\n'] + a.last());
                assert(out@ =~= join_lines(a));
            }
        }
        i = i + 1;
    }
    proof {
        assert(lines.take(items@.len() as int) =~= lines);
    }
    if has_line_break(&out) {
        out.append("\n");
    }
    out
}

} // verus!
