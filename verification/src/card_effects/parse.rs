use vstd::prelude::*;

use super::error::{Error, ErrorV};

verus! {

/// A tree of words read from the text of a card effect.
#[derive(Debug)]
pub enum Tokens {
    Token(String),
    List(Vec<Tokens>),
}

/// The mathematical value of [`Tokens`].
pub enum TokensV {
    Token(Seq<char>),
    List(Seq<TokensV>),
}

pub open spec fn tokens_view(t: Tokens) -> TokensV
    decreases t,
{
    match t {
        Tokens::Token(s) => TokensV::Token(s@),
        Tokens::List(v) => TokensV::List(tokens_views(v@)),
    }
}

pub open spec fn tokens_views(s: Seq<Tokens>) -> Seq<TokensV>
    decreases s,
{
    if s.len() == 0 {
        Seq::empty()
    } else {
        tokens_views(s.drop_last()).push(tokens_view(s.last()))
    }
}

impl View for Tokens {
    type V = TokensV;

    open spec fn view(&self) -> TokensV {
        tokens_view(*self)
    }
}

pub proof fn lemma_views_push(s: Seq<Tokens>, t: Tokens)
    ensures
        tokens_views(s.push(t)) == tokens_views(s).push(t@),
{
    assert(s.push(t).drop_last() =~= s);
}

pub proof fn lemma_views_len(s: Seq<Tokens>)
    ensures
        tokens_views(s).len() == s.len(),
    decreases s.len(),
{
    if s.len() > 0 {
        lemma_views_len(s.drop_last());
    }
}

pub proof fn lemma_views_index(s: Seq<Tokens>, i: int)
    requires
        0 <= i < s.len(),
    ensures
        tokens_views(s)[i] == s[i]@,
    decreases s.len(),
{
    lemma_views_len(s.drop_last());
    if i < s.len() - 1 {
        lemma_views_index(s.drop_last(), i);
    }
}

/// The views of a sequence of tokens, element by element.
pub proof fn lemma_views(s: Seq<Tokens>)
    ensures
        tokens_views(s).len() == s.len(),
        forall|i: int| 0 <= i < s.len() ==> #[trigger] tokens_views(s)[i] == s[i]@,
{
    lemma_views_len(s);
    assert forall|i: int| 0 <= i < s.len() implies #[trigger] tokens_views(s)[i] == s[i]@ by {
        lemma_views_index(s, i);
    }
}

pub proof fn lemma_views_subrange(s: Seq<Tokens>, i: int, j: int)
    requires
        0 <= i <= j <= s.len(),
    ensures
        tokens_views(s.subrange(i, j)) == tokens_views(s).subrange(i, j),
{
    lemma_views(s);
    lemma_views(s.subrange(i, j));
    assert(tokens_views(s.subrange(i, j)) =~= tokens_views(s).subrange(i, j));
}

// ------------------------------------------------------------------
// reading tokens from text
// ------------------------------------------------------------------

/// The characters that separate words: Unicode `White_Space`.
pub open spec fn is_whitespace_char(c: char) -> bool {
    let n = c as u32;
    ||| 0x9 <= n <= 0xd
    ||| n == 0x20
    ||| n == 0x85
    ||| n == 0xa0
    ||| n == 0x1680
    ||| 0x2000 <= n <= 0x200a
    ||| n == 0x2028
    ||| n == 0x2029
    ||| n == 0x202f
    ||| n == 0x205f
    ||| n == 0x3000
}

pub fn is_whitespace(c: char) -> (res: bool)
    ensures
        res == is_whitespace_char(c),
{
    let n = c as u32;
    (0x9 <= n && n <= 0xd) || n == 0x20 || n == 0x85 || n == 0xa0 || n == 0x1680 || (0x2000 <= n
        && n <= 0x200a) || n == 0x2028 || n == 0x2029 || n == 0x202f || n == 0x205f || n == 0x3000
}

/// Every line of an effect is read as a list of its own, and a bracket is doubled so that
/// a bracketed group which is alone on its level keeps its own list.
pub open spec fn expand_char(c: char) -> Seq<char> {
    if c == '(' {
        seq!['(', '(']
    } else if c == ')' {
        seq![')', ')']
    } else if c == '\n' {
        seq![')', '(']
    } else {
        seq![c]
    }
}

pub open spec fn expand_chars(s: Seq<char>) -> Seq<char>
    decreases s.len(),
{
    if s.len() == 0 {
        Seq::empty()
    } else {
        expand_chars(s.drop_last()) + expand_char(s.last())
    }
}

pub open spec fn bracketed(s: Seq<char>) -> Seq<char> {
    seq!['('] + expand_chars(s) + seq![')']
}

/// The state of the reader: the enclosing lists, the current list and the current word.
pub struct ReaderState {
    pub stack: Seq<Seq<TokensV>>,
    pub list: Seq<TokensV>,
    pub token: Seq<char>,
}

pub open spec fn reader_start() -> ReaderState {
    ReaderState { stack: Seq::empty(), list: Seq::empty(), token: Seq::empty() }
}

pub open spec fn add_token(list: Seq<TokensV>, token: Seq<char>) -> Seq<TokensV> {
    if token.len() == 0 {
        list
    } else {
        list.push(TokensV::Token(token))
    }
}

/// A closed list joins its parent; a list of one item is replaced by that item, an empty
/// list disappears.
pub open spec fn close_list(parent: Seq<TokensV>, list: Seq<TokensV>) -> Seq<TokensV> {
    if list.len() >= 2 {
        parent.push(TokensV::List(list))
    } else if list.len() == 1 {
        parent.push(list[0])
    } else {
        parent
    }
}

pub open spec fn reader_step(st: ReaderState, c: char) -> Result<ReaderState, ErrorV> {
    if c == '(' {
        Ok(
            ReaderState {
                stack: st.stack.push(add_token(st.list, st.token)),
                list: Seq::empty(),
                token: Seq::empty(),
            },
        )
    } else if c == ')' {
        if st.stack.len() == 0 {
            Err(ErrorV::MissingBracket)
        } else {
            Ok(
                ReaderState {
                    stack: st.stack.drop_last(),
                    list: close_list(st.stack.last(), add_token(st.list, st.token)),
                    token: Seq::empty(),
                },
            )
        }
    } else if is_whitespace_char(c) {
        Ok(ReaderState { stack: st.stack, list: add_token(st.list, st.token), token: Seq::empty() })
    } else {
        Ok(ReaderState { stack: st.stack, list: st.list, token: st.token.push(c) })
    }
}

pub open spec fn reader_run(st: ReaderState, cs: Seq<char>) -> Result<ReaderState, ErrorV>
    decreases cs.len(),
{
    if cs.len() == 0 {
        Ok(st)
    } else {
        match reader_run(st, cs.drop_last()) {
            Ok(s) => reader_step(s, cs.last()),
            Err(e) => Err(e),
        }
    }
}

pub open spec fn reader_finish(st: ReaderState) -> Result<TokensV, ErrorV> {
    let list = add_token(st.list, st.token);
    if st.stack.len() != 0 {
        Err(ErrorV::UnbalancedBrackets)
    } else if list.len() > 1 {
        Ok(TokensV::List(list))
    } else if list.len() == 1 {
        Ok(list[0])
    } else {
        Err(ErrorV::NoTokens)
    }
}

/// The tokens that a text reads as.
pub open spec fn spec_read_tokens(s: Seq<char>) -> Result<TokensV, ErrorV> {
    match reader_run(reader_start(), bracketed(s)) {
        Ok(st) => reader_finish(st),
        Err(e) => Err(e),
    }
}

proof fn lemma_run_push(st: ReaderState, cs: Seq<char>, c: char)
    ensures
        reader_run(st, cs.push(c)) == (match reader_run(st, cs) {
            Ok(s) => reader_step(s, c),
            Err(e) => Err(e),
        }),
{
    assert(cs.push(c).drop_last() =~= cs);
}

proof fn lemma_run_err(st: ReaderState, cs: Seq<char>, more: Seq<char>)
    requires
        reader_run(st, cs) is Err,
    ensures
        reader_run(st, cs + more) == reader_run(st, cs),
    decreases more.len(),
{
    if more.len() == 0 {
        assert(cs + more =~= cs);
    } else {
        lemma_run_err(st, cs, more.drop_last());
        assert((cs + more).drop_last() =~= cs + more.drop_last());
    }
}

proof fn lemma_expand_push(s: Seq<char>, c: char)
    ensures
        expand_chars(s.push(c)) == expand_chars(s) + expand_char(c),
{
    assert(s.push(c).drop_last() =~= s);
}


proof fn lemma_expand_append(a: Seq<char>, b: Seq<char>)
    ensures
        expand_chars(a + b) == expand_chars(a) + expand_chars(b),
    decreases b.len(),
{
    if b.len() == 0 {
        assert(a + b =~= a);
        assert(expand_chars(a) + expand_chars(b) =~= expand_chars(a));
    } else {
        lemma_expand_append(a, b.drop_last());
        assert((a + b).drop_last() =~= a + b.drop_last());
        assert(expand_chars(a) + expand_chars(b) =~= expand_chars(a) + expand_chars(b.drop_last())
            + expand_char(b.last()));
    }
}

/// Once the reader fails on a prefix of the bracketed text, it fails on the whole text.
proof fn lemma_read_err(s: Seq<char>, i: int, p: Seq<char>, q: Seq<char>)
    requires
        0 <= i < s.len(),
        p + q == seq!['('] + expand_chars(s.take(i + 1)),
        reader_run(reader_start(), p) is Err,
    ensures
        reader_run(reader_start(), p) matches Err(e) && spec_read_tokens(s) == Err::<TokensV, ErrorV>(e),
{
    let a = s.take(i + 1);
    let b = s.skip(i + 1);
    assert(a + b =~= s);
    lemma_expand_append(a, b);
    assert(expand_chars(s) == expand_chars(a) + expand_chars(b));
    let more = q + expand_chars(s.skip(i + 1)) + seq![')'];
    assert(p + more =~= (p + q) + expand_chars(b) + seq![')']);
    assert(bracketed(s) =~= (seq!['('] + expand_chars(a)) + expand_chars(b) + seq![')']);
    lemma_run_err(reader_start(), p, more);
}

pub open spec fn stacks_view(s: Seq<Vec<Tokens>>) -> Seq<Seq<TokensV>> {
    s.map_values(|l: Vec<Tokens>| tokens_views(l@))
}

pub open spec fn state_view(stack: Seq<Vec<Tokens>>, list: Seq<Tokens>, token: Seq<char>) -> ReaderState {
    ReaderState { stack: stacks_view(stack), list: tokens_views(list), token }
}

#[verifier::external_body]
pub(crate) fn push_char(s: &mut String, c: char)
    ensures
        final(s)@ == old(s)@.push(c),
{
    s.push(c);
}

fn exec_add_token(list: &mut Vec<Tokens>, token: &mut String)
    ensures
        tokens_views(final(list)@) == add_token(tokens_views(old(list)@), old(token)@),
        final(token)@ == Seq::<char>::empty(),
{
    let mut t = String::new();
    std::mem::swap(&mut t, token);
    if t.unicode_len() != 0 {
        proof {
            lemma_views_push(list@, Tokens::Token(t));
        }
        list.push(Tokens::Token(t));
    }
}

fn exec_close_list(parent: &mut Vec<Tokens>, list: Vec<Tokens>)
    ensures
        tokens_views(final(parent)@) == close_list(tokens_views(old(parent)@), tokens_views(list@)),
{
    let mut list = list;
    proof {
        lemma_views(list@);
    }
    if list.len() >= 2 {
        proof {
            lemma_views_push(parent@, Tokens::List(list));
        }
        parent.push(Tokens::List(list));
    } else if list.len() == 1 {
        let ghost v = list@;
        let t = list.pop().unwrap();
        proof {
            lemma_views_push(parent@, t);
            assert(t == v[0]);
        }
        parent.push(t);
    }
}

fn exec_step(stack: &mut Vec<Vec<Tokens>>, list: &mut Vec<Tokens>, token: &mut String, c: char) -> (res:
    Result<(), Error>)
    ensures
        match reader_step(state_view(old(stack)@, old(list)@, old(token)@), c) {
            Ok(st) => res is Ok && st == state_view(final(stack)@, final(list)@, final(token)@),
            Err(e) => res matches Err(err) && err@ == e,
        },
{
    let ghost old_st = state_view(stack@, list@, token@);
    if c == '(' {
        exec_add_token(list, token);
        let mut l = Vec::new();
        std::mem::swap(&mut l, list);
        stack.push(l);
        proof {
            assert(tokens_views(list@) =~= Seq::<TokensV>::empty());
            assert(stacks_view(stack@) =~= old_st.stack.push(add_token(old_st.list, old_st.token)));
        }
        Ok(())
    } else if c == ')' {
        exec_add_token(list, token);
        if stack.len() == 0 {
            return Err(Error::MissingBracket);
        }
        let ghost st = stack@;
        let mut parent = stack.pop().unwrap();
        let mut l = Vec::new();
        std::mem::swap(&mut l, list);
        exec_close_list(&mut parent, l);
        std::mem::swap(&mut parent, list);
        proof {
            assert(stacks_view(stack@) =~= stacks_view(st).drop_last());
        }
        Ok(())
    } else if is_whitespace(c) {
        exec_add_token(list, token);
        Ok(())
    } else {
        push_char(token, c);
        Ok(())
    }
}

/// Reads the tokens of a card effect text.
pub fn read_tokens(s: &str) -> (res: Result<Tokens, Error>)
    ensures
        match spec_read_tokens(s@) {
            Ok(t) => res matches Ok(r) && r@ == t,
            Err(e) => res matches Err(err) && err@ == e,
        },
{
    let mut stack: Vec<Vec<Tokens>> = Vec::new();
    let mut list: Vec<Tokens> = Vec::new();
    let mut token = String::new();
    proof {
        assert(stacks_view(stack@) =~= Seq::<Seq<TokensV>>::empty());
        assert(tokens_views(list@) =~= Seq::<TokensV>::empty());
        assert(token@ =~= Seq::<char>::empty());
        assert(state_view(stack@, list@, token@) =~= reader_start());
        assert(seq!['('].drop_last() =~= Seq::<char>::empty());
    }
    let r0 = exec_step(&mut stack, &mut list, &mut token, '(');
    if r0.is_err() {
        return Err(Error::MissingBracket);
    }
    let n = s.unicode_len();
    let ghost full = bracketed(s@);
    proof {
        assert(s@.take(0) =~= Seq::<char>::empty());
        assert(seq!['('] + expand_chars(s@.take(0)) =~= seq!['(']);
        lemma_run_push(reader_start(), Seq::empty(), '(');
        assert(Seq::<char>::empty().push('(') =~= seq!['(']);
    }
    let mut i: usize = 0;
    while i < n
        invariant
            n == s@.len(),
            0 <= i <= n,
            full == bracketed(s@),
            reader_run(reader_start(), seq!['('] + expand_chars(s@.take(i as int))) == Ok::<
                ReaderState,
                ErrorV,
            >(state_view(stack@, list@, token@)),
        decreases n - i,
    {
        let c = s.get_char(i);
        let ghost prefix = seq!['('] + expand_chars(s@.take(i as int));
        proof {
            assert(s@.take(i + 1) =~= s@.take(i as int).push(c));
            lemma_expand_push(s@.take(i as int), c);
            assert(seq!['('] + expand_chars(s@.take(i + 1)) =~= prefix + expand_char(c));
        }
        if c == '(' || c == ')' {
            let r1 = exec_step(&mut stack, &mut list, &mut token, c);
            proof {
                lemma_run_push(reader_start(), prefix, c);
            }
            match r1 {
                Err(e) => {
                    proof {
                        assert(prefix.push(c) + seq![c] =~= prefix + expand_char(c));
                        lemma_read_err(s@, i as int, prefix.push(c), seq![c]);
                    }
                    return Err(e);
                },
                Ok(_) => {},
            }
            let r2 = exec_step(&mut stack, &mut list, &mut token, c);
            proof {
                let p1 = prefix.push(c);
                lemma_run_push(reader_start(), p1, c);
                assert(p1.push(c) =~= prefix + expand_char(c));
            }
            match r2 {
                Err(e) => {
                    proof {
                        assert(prefix + expand_char(c) + Seq::empty() =~= prefix + expand_char(c));
                        lemma_read_err(s@, i as int, prefix + expand_char(c), Seq::empty());
                    }
                    return Err(e);
                },
                Ok(_) => {},
            }
        } else if c == '\n' {
            let r1 = exec_step(&mut stack, &mut list, &mut token, ')');
            proof {
                lemma_run_push(reader_start(), prefix, ')');
            }
            match r1 {
                Err(e) => {
                    proof {
                        assert(prefix.push(')') + seq!['('] =~= prefix + expand_char(c));
                        lemma_read_err(s@, i as int, prefix.push(')'), seq!['(']);
                    }
                    return Err(e);
                },
                Ok(_) => {},
            }
            let r2 = exec_step(&mut stack, &mut list, &mut token, '(');
            proof {
                let p1 = prefix.push(')');
                lemma_run_push(reader_start(), p1, '(');
                assert(p1.push('(') =~= prefix + expand_char(c));
            }
        } else {
            let r1 = exec_step(&mut stack, &mut list, &mut token, c);
            proof {
                lemma_run_push(reader_start(), prefix, c);
                assert(prefix.push(c) =~= prefix + expand_char(c));
            }
        }
        proof {
            assert(seq!['('] + expand_chars(s@.take(i + 1)) =~= prefix + expand_char(c));
        }
        i = i + 1;
    }
    proof {
        assert(s@.take(n as int) =~= s@);
    }
    let r = exec_step(&mut stack, &mut list, &mut token, ')');
    proof {
        lemma_run_push(reader_start(), seq!['('] + expand_chars(s@), ')');
        assert((seq!['('] + expand_chars(s@)).push(')') =~= bracketed(s@));
    }
    if r.is_err() {
        return Err(Error::MissingBracket);
    }
    exec_add_token(&mut list, &mut token);
    if stack.len() != 0 {
        return Err(Error::UnbalancedBrackets);
    }
    proof {
        lemma_views(list@);
    }
    if list.len() > 1 {
        Ok(Tokens::List(list))
    } else if list.len() == 1 {
        let t = list.pop().unwrap();
        Ok(t)
    } else {
        Err(Error::NoTokens)
    }
}


// ------------------------------------------------------------------
// writing tokens as text
// ------------------------------------------------------------------

/// The text of a token tree: a word as it is, a list between brackets with its items
/// separated by one space.
pub open spec fn spec_text(t: TokensV) -> Seq<char>
    decreases t,
{
    match t {
        TokensV::Token(s) => s,
        TokensV::List(v) => seq!['('] + spec_join(v) + seq![')'],
    }
}

pub open spec fn spec_join(v: Seq<TokensV>) -> Seq<char>
    decreases v,
{
    if v.len() == 0 {
        Seq::empty()
    } else if v.len() == 1 {
        spec_text(v[0])
    } else {
        spec_join(v.drop_last()) + seq![' '] + spec_text(v.last())
    }
}

/// A character that can stand in a word: no bracket and no whitespace.
pub open spec fn is_word_char(c: char) -> bool {
    c != '(' && c != ')' && !is_whitespace_char(c)
}

/// A token tree that its text gives back: every word is made of word characters and is not
/// empty, and every list has at least two items.
pub open spec fn well_formed_tokens(t: TokensV) -> bool
    decreases t,
{
    match t {
        TokensV::Token(w) => w.len() > 0 && forall|i: int| 0 <= i < w.len() ==> is_word_char(#[trigger] w[i]),
        TokensV::List(v) => v.len() >= 2 && forall|i: int|
            0 <= i < v.len() ==> well_formed_tokens(#[trigger] v[i]),
    }
}

proof fn lemma_run_append(st: ReaderState, a: Seq<char>, b: Seq<char>)
    ensures
        reader_run(st, a + b) == (match reader_run(st, a) {
            Ok(s) => reader_run(s, b),
            Err(e) => Err(e),
        }),
    decreases b.len(),
{
    if b.len() == 0 {
        assert(a + b =~= a);
    } else {
        lemma_run_append(st, a, b.drop_last());
        assert((a + b).drop_last() =~= a + b.drop_last());
    }
}

/// A word reads as itself: its characters go to the current word.
proof fn lemma_read_word(st: ReaderState, w: Seq<char>)
    requires
        forall|i: int| 0 <= i < w.len() ==> is_word_char(#[trigger] w[i]),
    ensures
        expand_chars(w) == w,
        reader_run(st, w) == Ok::<ReaderState, ErrorV>(
            ReaderState { stack: st.stack, list: st.list, token: st.token + w },
        ),
    decreases w.len(),
{
    if w.len() == 0 {
        assert(st.token + w =~= st.token);
    } else {
        let p = w.drop_last();
        assert forall|i: int| 0 <= i < p.len() implies is_word_char(#[trigger] p[i]) by {
            assert(p[i] == w[i]);
        }
        lemma_read_word(st, p);
        assert(is_word_char(w[w.len() - 1]));
        assert(expand_char(w.last()) =~= seq![w.last()]);
        assert(p.push(w.last()) =~= w);
        assert((st.token + p).push(w.last()) =~= st.token + w);
    }
}

/// The text of a well-formed tree, read from a state with no pending word: a word is left
/// pending, a list is added to the current list.
proof fn lemma_read_tree(st: ReaderState, t: TokensV)
    requires
        st.token.len() == 0,
        well_formed_tokens(t),
    ensures
        reader_run(st, expand_chars(spec_text(t))) matches Ok(s) && s.stack == st.stack && add_token(
            s.list,
            s.token,
        ) == st.list.push(t) && (t is List ==> s.token.len() == 0),
    decreases t,
{
    match t {
        TokensV::Token(w) => {
            lemma_read_word(st, w);
            assert(st.token + w =~= w);
        },
        TokensV::List(v) => {
            let s1 = ReaderState { stack: st.stack.push(st.list), list: Seq::empty(), token: Seq::empty() };
            let s2 = ReaderState { stack: s1.stack.push(Seq::empty()), list: Seq::empty(), token: Seq::empty() };
            assert(reader_step(st, '(') == Ok::<ReaderState, ErrorV>(s1));
            assert(reader_step(s1, '(') == Ok::<ReaderState, ErrorV>(s2));
            lemma_read_join(s2, v);
            let s3 = reader_run(s2, expand_chars(spec_join(v)))->Ok_0;
            assert(add_token(s3.list, s3.token) == v);
            assert(v.len() >= 2);
            let s4 = ReaderState { stack: s1.stack, list: seq![TokensV::List(v)], token: Seq::empty() };
            assert(s3.stack.drop_last() =~= s1.stack);
            assert(s3.stack.last() == Seq::<TokensV>::empty());
            assert(close_list(Seq::<TokensV>::empty(), v) =~= seq![TokensV::List(v)]);
            assert(reader_step(s3, ')') == Ok::<ReaderState, ErrorV>(s4));
            let s5 = ReaderState { stack: st.stack, list: st.list.push(TokensV::List(v)), token: Seq::empty() };
            assert(add_token(s4.list, s4.token) =~= seq![TokensV::List(v)]);
            assert(s4.stack.drop_last() =~= st.stack);
            assert(s4.stack.last() == st.list);
            assert(close_list(st.list, seq![TokensV::List(v)]) =~= st.list.push(TokensV::List(v)));
            assert(reader_step(s4, ')') == Ok::<ReaderState, ErrorV>(s5));
            let text = spec_text(t);
            assert(text == seq!['('] + spec_join(v) + seq![')']);
            lemma_expand_append(seq!['('] + spec_join(v), seq![')']);
            lemma_expand_append(seq!['('], spec_join(v));
            assert(expand_chars(seq!['(']) =~= seq!['(', '(']) by {
                assert(seq!['('].drop_last() =~= Seq::<char>::empty());
                assert(expand_chars(Seq::<char>::empty()) =~= Seq::<char>::empty());
                assert(Seq::<char>::empty() + seq!['(', '('] =~= seq!['(', '(']);
            }
            assert(expand_chars(seq![')']) =~= seq![')', ')']) by {
                assert(seq![')'].drop_last() =~= Seq::<char>::empty());
                assert(expand_chars(Seq::<char>::empty()) =~= Seq::<char>::empty());
                assert(Seq::<char>::empty() + seq![')', ')'] =~= seq![')', ')']);
            }
            let e = expand_chars(spec_join(v));
            assert(expand_chars(text) =~= seq!['('] + (seq!['('] + e) + seq![')'] + seq![')']);
            lemma_run_append(st, seq!['('], seq!['('] + e + seq![')'] + seq![')']);
            lemma_run_append(s1, seq!['('], e + seq![')'] + seq![')']);
            lemma_run_append(s2, e, seq![')'] + seq![')']);
            lemma_run_append(s3, seq![')'], seq![')']);
            assert(seq!['('] + (seq!['('] + e + seq![')'] + seq![')']) =~= expand_chars(text));
            assert(seq!['('] + (e + seq![')'] + seq![')']) =~= seq!['('] + e + seq![')'] + seq![')']);
            assert(e + (seq![')'] + seq![')']) =~= e + seq![')'] + seq![')']);
            assert(reader_run(st, seq!['(']) == reader_step(st, '(')) by {
                lemma_run_push(st, Seq::<char>::empty(), '(');
                assert(Seq::<char>::empty().push('(') =~= seq!['(']);
            }
            assert(reader_run(s1, seq!['(']) == reader_step(s1, '(')) by {
                lemma_run_push(s1, Seq::<char>::empty(), '(');
                assert(Seq::<char>::empty().push('(') =~= seq!['(']);
            }
            assert(reader_run(s3, seq![')']) == reader_step(s3, ')')) by {
                lemma_run_push(s3, Seq::<char>::empty(), ')');
                assert(Seq::<char>::empty().push(')') =~= seq![')']);
            }
            assert(reader_run(s4, seq![')']) == reader_step(s4, ')')) by {
                lemma_run_push(s4, Seq::<char>::empty(), ')');
                assert(Seq::<char>::empty().push(')') =~= seq![')']);
            }
        },
    }
}

/// The text of well-formed items, read from a state with no pending word, adds them to the
/// current list; the last one may be left pending.
proof fn lemma_read_join(st: ReaderState, v: Seq<TokensV>)
    requires
        st.token.len() == 0,
        v.len() > 0,
        forall|i: int| 0 <= i < v.len() ==> well_formed_tokens(#[trigger] v[i]),
    ensures
        reader_run(st, expand_chars(spec_join(v))) matches Ok(s) && s.stack == st.stack && add_token(
            s.list,
            s.token,
        ) == st.list + v,
    decreases v,
{
    if v.len() == 1 {
        assert(well_formed_tokens(v[0]));
        lemma_read_tree(st, v[0]);
        assert(st.list.push(v[0]) =~= st.list + v);
    } else {
        let p = v.drop_last();
        assert forall|i: int| 0 <= i < p.len() implies well_formed_tokens(#[trigger] p[i]) by {
            assert(p[i] == v[i]);
        }
        lemma_read_join(st, p);
        let s1 = reader_run(st, expand_chars(spec_join(p)))->Ok_0;
        let s2 = ReaderState { stack: st.stack, list: st.list + p, token: Seq::empty() };
        assert(is_whitespace_char(' '));
        assert(reader_step(s1, ' ') == Ok::<ReaderState, ErrorV>(s2));
        assert(well_formed_tokens(v[v.len() - 1]));
        lemma_read_tree(s2, v.last());
        let tail = expand_chars(spec_text(v.last()));
        assert(spec_join(v) == spec_join(p) + seq![' '] + spec_text(v.last()));
        lemma_expand_append(spec_join(p) + seq![' '], spec_text(v.last()));
        lemma_expand_append(spec_join(p), seq![' ']);
        assert(expand_chars(seq![' ']) =~= seq![' ']) by {
            assert(seq![' '].drop_last() =~= Seq::<char>::empty());
            assert(expand_char(' ') =~= seq![' ']);
            assert(expand_chars(Seq::<char>::empty()) =~= Seq::<char>::empty());
        }
        lemma_run_append(st, expand_chars(spec_join(p)), seq![' '] + tail);
        assert(expand_chars(spec_join(v)) =~= expand_chars(spec_join(p)) + (seq![' '] + tail));
        lemma_run_append(s1, seq![' '], tail);
        assert(reader_run(s1, seq![' ']) == reader_step(s1, ' ')) by {
            lemma_run_push(s1, Seq::<char>::empty(), ' ');
            assert(Seq::<char>::empty().push(' ') =~= seq![' ']);
        }
        assert((st.list + p).push(v.last()) =~= st.list + v);
    }
}

/// Reading the text of a well-formed token tree gives the tree back.
pub proof fn lemma_tokens_round_trip(t: TokensV)
    requires
        well_formed_tokens(t),
    ensures
        spec_read_tokens(spec_text(t)) == Ok::<TokensV, ErrorV>(t),
{
    let st = reader_start();
    let s1 = ReaderState { stack: seq![Seq::<TokensV>::empty()], list: Seq::empty(), token: Seq::empty() };
    assert(reader_step(st, '(') == Ok::<ReaderState, ErrorV>(s1)) by {
        assert(Seq::<Seq<TokensV>>::empty().push(add_token(st.list, st.token)) =~= seq![Seq::<TokensV>::empty()]);
    }
    lemma_read_tree(s1, t);
    let e = expand_chars(spec_text(t));
    let s2 = reader_run(s1, e)->Ok_0;
    assert(add_token(s2.list, s2.token) =~= seq![t]);
    let s3 = ReaderState { stack: Seq::empty(), list: seq![t], token: Seq::empty() };
    assert(s2.stack.drop_last() =~= Seq::<Seq<TokensV>>::empty());
    assert(reader_step(s2, ')') == Ok::<ReaderState, ErrorV>(s3));
    lemma_run_append(st, seq!['('], e + seq![')']);
    lemma_run_append(s1, e, seq![')']);
    assert(bracketed(spec_text(t)) =~= seq!['('] + (e + seq![')']));
    assert(reader_run(st, seq!['(']) == reader_step(st, '(')) by {
        lemma_run_push(st, Seq::<char>::empty(), '(');
        assert(Seq::<char>::empty().push('(') =~= seq!['(']);
    }
    assert(reader_run(s2, seq![')']) == reader_step(s2, ')')) by {
        lemma_run_push(s2, Seq::<char>::empty(), ')');
        assert(Seq::<char>::empty().push(')') =~= seq![')']);
    }
    assert(add_token(s3.list, s3.token) =~= seq![t]);
}

impl Tokens {
    /// The text of these tokens.
    pub fn to_text(&self) -> (res: String)
        ensures
            res@ == spec_text(self@),
        decreases token_size(self@),
    {
        match self {
            Tokens::Token(s) => s.clone(),
            Tokens::List(v) => {
                proof {
                    reveal_strlit("(");
                    reveal_strlit(")");
                    reveal_strlit(" ");
                    lemma_views(v@);
                }
                let mut res = String::from_str("(");
                let mut i: usize = 0;
                while i < v.len()
                    invariant
                        self@ == TokensV::List(tokens_views(v@)),
                        0 <= i <= v.len(),
                        tokens_views(v@).len() == v@.len(),
                        forall|j: int| 0 <= j < v@.len() ==> #[trigger] tokens_views(v@)[j] == v@[j]@,
                        res@ == seq!['('] + spec_join(tokens_views(v@).take(i as int)),
                    decreases v.len() - i,
                {
                    let ghost vs = tokens_views(v@);
                    let ghost old_res = res@;
                    proof {
                        lemma_sizes_elem(vs, i as int);
                    }
                    let t = v[i].to_text();
                    if i > 0 {
                        res.append(" ");
                    }
                    res.append(t.as_str());
                    proof {
                        reveal_strlit(" ");
                        let a = vs.take(i + 1);
                        assert(a.drop_last() =~= vs.take(i as int));
                        assert(a.last() == v@[i as int]@);
                        if i == 0 {
                            assert(a.len() == 1);
                            assert(spec_join(a) == spec_text(a[0]));
                            assert(vs.take(0) =~= Seq::<TokensV>::empty());
                            assert(res@ =~= seq!['('] + spec_join(a));
                        } else {
                            assert(spec_join(a) == spec_join(vs.take(i as int)) + seq![' '] + spec_text(
                                a.last(),
                            ));
                            assert(res@ =~= seq!['('] + spec_join(a));
                        }
                    }
                    i = i + 1;
                }
                res.append(")");
                proof {
                    assert(tokens_views(v@).take(v@.len() as int) =~= tokens_views(v@));
                }
                res
            },
        }
    }
}

// ------------------------------------------------------------------
// helpers for the readers of effects
// ------------------------------------------------------------------

/// The number of nodes of a token tree; every reader call goes to fewer of them.
pub open spec fn token_size(t: TokensV) -> nat
    decreases t,
{
    match t {
        TokensV::Token(_) => 1,
        TokensV::List(v) => 1 + token_sizes(v),
    }
}

pub open spec fn token_sizes(s: Seq<TokensV>) -> nat
    decreases s,
{
    if s.len() == 0 {
        0
    } else {
        token_sizes(s.drop_last()) + token_size(s.last())
    }
}

pub proof fn lemma_sizes_append(a: Seq<TokensV>, b: Seq<TokensV>)
    ensures
        token_sizes(a + b) == token_sizes(a) + token_sizes(b),
    decreases b.len(),
{
    if b.len() == 0 {
        assert(a + b =~= a);
    } else {
        lemma_sizes_append(a, b.drop_last());
        assert((a + b).drop_last() =~= a + b.drop_last());
    }
}

pub proof fn lemma_sizes_at_least_len(s: Seq<TokensV>)
    ensures
        token_sizes(s) >= s.len(),
    decreases s.len(),
{
    if s.len() > 0 {
        lemma_sizes_at_least_len(s.drop_last());
        match s.last() {
            TokensV::Token(_) => {
                assert(token_size(s.last()) == 1);
            },
            TokensV::List(v) => {
                assert(token_size(s.last()) == 1 + token_sizes(v));
            },
        }
    }
}

pub proof fn lemma_sizes_elem(s: Seq<TokensV>, i: int)
    requires
        0 <= i < s.len(),
    ensures
        token_size(s[i]) < token_sizes(s) + 1,
{
    let a = s.subrange(0, i);
    let b = s.subrange(i, s.len() as int);
    assert(a + b =~= s);
    lemma_sizes_append(a, b);
    let c = b.subrange(0, 1);
    let e = b.subrange(1, b.len() as int);
    assert(c + e =~= b);
    lemma_sizes_append(c, e);
    assert(c.drop_last() =~= Seq::<TokensV>::empty());
    assert(c.last() == s[i]);
    assert(token_sizes(c) == token_sizes(c.drop_last()) + token_size(c.last()));
}

/// A proper suffix has fewer nodes.
pub proof fn lemma_sizes_suffix(s: Seq<TokensV>, k: int)
    requires
        1 <= k <= s.len(),
    ensures
        token_sizes(s.subrange(k, s.len() as int)) < token_sizes(s),
{
    let a = s.subrange(0, k);
    let b = s.subrange(k, s.len() as int);
    assert(a + b =~= s);
    lemma_sizes_append(a, b);
    lemma_sizes_at_least_len(a);
}

/// A suffix has no more nodes.
pub proof fn lemma_sizes_suffix_le(s: Seq<TokensV>, k: int)
    requires
        0 <= k <= s.len(),
    ensures
        token_sizes(s.subrange(k, s.len() as int)) <= token_sizes(s),
{
    let a = s.subrange(0, k);
    let b = s.subrange(k, s.len() as int);
    assert(a + b =~= s);
    lemma_sizes_append(a, b);
}

/// A proper prefix has fewer nodes.
pub proof fn lemma_sizes_prefix(s: Seq<TokensV>, k: int)
    requires
        0 <= k < s.len(),
    ensures
        token_sizes(s.subrange(0, k)) < token_sizes(s),
{
    let a = s.subrange(0, k);
    let b = s.subrange(k, s.len() as int);
    assert(a + b =~= s);
    lemma_sizes_append(a, b);
    lemma_sizes_at_least_len(b);
}

/// The items of a list at the front have fewer nodes than the whole.
pub proof fn lemma_sizes_head_list(s: Seq<TokensV>, v: Seq<TokensV>)
    requires
        s.len() >= 1,
        s[0] == TokensV::List(v),
    ensures
        token_sizes(v) < token_sizes(s),
{
    let a = s.subrange(0, 1);
    let b = s.subrange(1, s.len() as int);
    assert(a + b =~= s);
    lemma_sizes_append(a, b);
    assert(a.drop_last() =~= Seq::<TokensV>::empty());
    assert(a.last() == s[0]);
    assert(token_sizes(a) == token_sizes(a.drop_last()) + token_size(a.last()));
    assert(token_size(TokensV::List(v)) == 1 + token_sizes(v));
}

/// Whether `r` is what is left of `s` after at least one token.
pub open spec fn is_rest_of(r: Seq<Tokens>, s: Seq<Tokens>) -> bool {
    r.len() < s.len() && r == s.subrange(s.len() - r.len(), s.len() as int)
}

pub proof fn lemma_rest_trans(r: Seq<Tokens>, m: Seq<Tokens>, s: Seq<Tokens>)
    requires
        is_rest_of(r, m),
        is_rest_of(m, s),
    ensures
        is_rest_of(r, s),
{
    assert(r =~= s.subrange(s.len() - r.len(), s.len() as int));
}

/// The rest of a reader call has fewer nodes than what it read from.
pub proof fn lemma_rest_sizes(r: Seq<Tokens>, s: Seq<Tokens>)
    requires
        is_rest_of(r, s),
    ensures
        token_sizes(tokens_views(r)) < token_sizes(tokens_views(s)),
{
    lemma_views_subrange(s, s.len() - r.len(), s.len() as int);
    lemma_views(s);
    lemma_sizes_suffix(tokens_views(s), s.len() - r.len());
}

/// Reads the word at the front.
pub open spec fn spec_take_string(ts: Seq<TokensV>) -> Result<(Seq<char>, Seq<TokensV>), ErrorV> {
    if ts.len() == 0 {
        Err(ErrorV::ExpectedToken)
    } else {
        match ts[0] {
            TokensV::Token(s) => Ok((s, ts.subrange(1, ts.len() as int))),
            TokensV::List(_) => Err(ErrorV::ExpectedString),
        }
    }
}

pub fn take_string(tokens: &[Tokens]) -> (res: Result<(&String, &[Tokens]), Error>)
    ensures
        match spec_take_string(tokens_views(tokens@)) {
            Ok((s, rest)) => res matches Ok((x, r)) && x@ == s && tokens_views(r@) == rest
                && is_rest_of(r@, tokens@) && r@ == tokens@.subrange(1, tokens@.len() as int),
            Err(e) => res matches Err(err) && err@ == e,
        },
{
    proof {
        lemma_views(tokens@);
    }
    if tokens.len() == 0 {
        return Err(Error::ExpectedToken);
    }
    match &tokens[0] {
        Tokens::Token(s) => {
            let r = &tokens[1..tokens.len()];
            proof {
                lemma_views_subrange(tokens@, 1, tokens@.len() as int);
                assert(r@ =~= tokens@.subrange(tokens@.len() - r@.len(), tokens@.len() as int));
            }
            Ok((s, r))
        },
        Tokens::List(_) => Err(Error::ExpectedString),
    }
}

/// The tokens that a parameter is read from: the items of a list at the front, or else all
/// the tokens.
pub open spec fn spec_tokens_context(ts: Seq<TokensV>) -> Result<(Seq<TokensV>, bool), ErrorV> {
    if ts.len() == 0 {
        Err(ErrorV::ExpectedToken)
    } else {
        match ts[0] {
            TokensV::List(v) => Ok((v, true)),
            TokensV::Token(_) => Ok((ts, false)),
        }
    }
}

pub fn get_tokens_context(tokens: &[Tokens]) -> (res: Result<(&[Tokens], bool), Error>)
    ensures
        match spec_tokens_context(tokens_views(tokens@)) {
            Ok((ctx, sub)) => res matches Ok((c, b)) && tokens_views(c@) == ctx && b == sub && (!b
                ==> c@ == tokens@),
            Err(e) => res matches Err(err) && err@ == e,
        },
{
    proof {
        lemma_views(tokens@);
    }
    if tokens.len() == 0 {
        return Err(Error::ExpectedToken);
    }
    match &tokens[0] {
        Tokens::List(v) => Ok((v.as_slice(), true)),
        Tokens::Token(_) => Ok((tokens, false)),
    }
}

/// Whether a word is the given keyword.
pub fn str_is(s: &String, lit: &str) -> (res: bool)
    ensures
        res == (s@ == lit@),
{
    let a = s.as_str();
    let n = a.unicode_len();
    if n != lit.unicode_len() {
        return false;
    }
    let mut i: usize = 0;
    while i < n
        invariant
            n == a@.len(),
            n == lit@.len(),
            a@ == s@,
            0 <= i <= n,
            forall|j: int| 0 <= j < i ==> a@[j] == lit@[j],
        decreases n - i,
    {
        if a.get_char(i) != lit.get_char(i) {
            return false;
        }
        i = i + 1;
    }
    assert(a@ =~= lit@);
    true
}

/// Whether a word names a variable.
pub fn starts_with_dollar(s: &String) -> (res: bool)
    ensures
        res == (s@.len() > 0 && s@[0] == '$'),
{
    let a = s.as_str();
    a.unicode_len() > 0 && a.get_char(0) == '$'
}

// ------------------------------------------------------------------
// numbers in decimal
// ------------------------------------------------------------------

pub open spec fn is_digit(c: char) -> bool {
    48 <= c as u32 <= 57
}

pub open spec fn digit_value(c: char) -> nat {
    (c as u32 - 48) as nat
}

pub open spec fn digits_value(s: Seq<char>) -> nat
    decreases s.len(),
{
    if s.len() == 0 {
        0
    } else {
        digits_value(s.drop_last()) * 10 + digit_value(s.last())
    }
}

/// The digits of a number text: after an optional `+`.
pub open spec fn usize_digits(s: Seq<char>) -> Seq<char> {
    if s.len() > 0 && s[0] == '+' {
        s.subrange(1, s.len() as int)
    } else {
        s
    }
}

pub open spec fn all_digits(d: Seq<char>) -> bool {
    forall|i: int| 0 <= i < d.len() ==> is_digit(#[trigger] d[i])
}

/// What `usize::from_str` gives: an optional `+`, then at least one decimal digit, with a
/// value that fits.
pub open spec fn spec_parse_usize(s: Seq<char>) -> Option<usize> {
    let d = usize_digits(s);
    if d.len() > 0 && all_digits(d) && digits_value(d) <= usize::MAX {
        Some(digits_value(d) as usize)
    } else {
        None
    }
}

pub fn parse_usize(s: &String) -> (res: Option<usize>)
    ensures
        res == spec_parse_usize(s@),
{
    let a = s.as_str();
    let n = a.unicode_len();
    let start: usize = if n > 0 && a.get_char(0) == '+' {
        1
    } else {
        0
    };
    let ghost d = usize_digits(s@);
    assert(d =~= s@.subrange(start as int, n as int));
    if start >= n {
        return None;
    }
    let mut value: usize = 0;
    let mut overflow = false;
    let mut i: usize = start;
    while i < n
        invariant
            n == a@.len(),
            a@ == s@,
            start <= i <= n,
            d == s@.subrange(start as int, n as int),
            d == usize_digits(s@),
            forall|j: int| start <= j < i ==> is_digit(#[trigger] s@[j]),
            !overflow ==> value == digits_value(s@.subrange(start as int, i as int)),
            overflow ==> digits_value(s@.subrange(start as int, i as int)) > usize::MAX,
        decreases n - i,
    {
        let c = a.get_char(i);
        if !(48 <= c as u32 && c as u32 <= 57) {
            assert(d[i - start] == c);
            assert(!is_digit(d[i - start]));
            return None;
        }
        let ghost prev = s@.subrange(start as int, i as int);
        assert(s@.subrange(start as int, i + 1).drop_last() =~= prev);
        let dv = (c as u32 - 48) as usize;
        if !overflow {
            if value > (usize::MAX - dv) / 10 {
                overflow = true;
                assert(value * 10 + dv > usize::MAX) by (nonlinear_arith)
                    requires
                        value > (usize::MAX - dv) / 10,
                        dv <= 9,
                ;
            } else {
                assert(value * 10 + dv <= usize::MAX) by (nonlinear_arith)
                    requires
                        value <= (usize::MAX - dv) / 10,
                        dv <= 9,
                ;
                value = value * 10 + dv;
            }
        } else {
            assert(digits_value(prev) * 10 + digit_value(c) > usize::MAX) by (nonlinear_arith)
                requires
                    digits_value(prev) > usize::MAX,
            ;
        }
        i = i + 1;
    }
    assert(all_digits(d)) by {
        assert forall|j: int| 0 <= j < d.len() implies is_digit(#[trigger] d[j]) by {
            assert(d[j] == s@[start + j]);
        }
    }
    if overflow {
        None
    } else {
        Some(value)
    }
}

pub open spec fn digit_char(d: nat) -> char {
    (48 + d) as char
}

/// The decimal text of a number, as `usize::to_string` writes it.
pub open spec fn decimal(n: nat) -> Seq<char>
    decreases n,
{
    if n < 10 {
        seq![digit_char(n)]
    } else {
        decimal(n / 10).push(digit_char(n % 10))
    }
}

pub fn usize_to_string(n: usize) -> (res: String)
    ensures
        res@ == decimal(n as nat),
    decreases n,
{
    if n < 10 {
        let mut s = String::new();
        let c = (48u8 + (n as u8)) as char;
        push_char(&mut s, c);
        assert(s@ =~= seq![digit_char(n as nat)]);
        s
    } else {
        let mut s = usize_to_string(n / 10);
        let c = (48u8 + ((n % 10) as u8)) as char;
        push_char(&mut s, c);
        s
    }
}

/// Reading the decimal text of a number gives the number back.
pub proof fn lemma_decimal_round_trip(n: usize)
    ensures
        spec_parse_usize(decimal(n as nat)) == Some(n),
{
    lemma_decimal_digits(n as nat);
    let d = decimal(n as nat);
    assert(d[0] != '+');
    assert(usize_digits(d) == d);
    assert(all_digits(d));
}

proof fn lemma_decimal_digits(n: nat)
    ensures
        decimal(n).len() > 0,
        forall|i: int| 0 <= i < decimal(n).len() ==> is_digit(#[trigger] decimal(n)[i]),
        digits_value(decimal(n)) == n,
        decimal(n)[0] != '+',
    decreases n,
{
    if n >= 10 {
        lemma_decimal_digits(n / 10);
        let d = decimal(n);
        assert(d.drop_last() =~= decimal(n / 10));
        assert(digit_value(digit_char(n % 10)) == n % 10);
        assert(d.last() == digit_char(n % 10));
        assert(digits_value(d) == digits_value(decimal(n / 10)) * 10 + n % 10);
        assert(forall|i: int| 0 <= i < d.len() - 1 ==> d[i] == decimal(n / 10)[i]);
    } else {
        let d = decimal(n);
        assert(digit_value(digit_char(n)) == n);
        assert(d.drop_last() =~= Seq::<char>::empty());
        assert(digits_value(d) == digits_value(d.drop_last()) * 10 + digit_value(d.last()));
    }
}


// ------------------------------------------------------------------
// the reader and writer interfaces
// ------------------------------------------------------------------

/// What can be read from tokens; each implementation states what it reads.
pub trait ParseTokens: Sized {
    /// Reads a value from the front of the tokens, and gives the tokens that are left.
    fn parse_tokens(tokens: &[Tokens]) -> Result<(Self, &[Tokens]), Error>;

    /// The value that an empty effect text stands for, if there is one.
    fn default_effect() -> Option<Self>;
}

/// What can be written as the text of an effect.
pub trait SerializeEffect {
    fn serialize_effect(&self) -> String;
}

} // verus!
