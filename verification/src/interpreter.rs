//! The glob tokenizer and compiler.
//!
//! A raw argument word is consumed left to right by a six-state automaton
//! with an explicit transition function over (state, character class) pairs,
//! producing an ordered sequence of typed tokens or a structural parse
//! error.  A token sequence is then compiled into one regex-flavoured match
//! expression, each token kind contributing its own expansion.

use vstd::prelude::*;

verus! {

/// The kind of a token, doubling as the state of the tokenizing automaton
/// (the automaton state after a character is exactly the kind that
/// character was resolved to).
#[derive(PartialEq, Eq, Structural, Copy, Clone, Debug)]
pub enum TokenKind {
    /// A run of ordinary characters.
    Normal,
    /// A run of `*` characters.
    Kleene,
    /// A run of `?` characters.
    Single,
    /// The single `[` that opens a bracket group.
    GroupStart,
    /// The single `]` that closes a bracket group.
    GroupEnd,
    /// The characters accumulated between `[` and `]`.
    Group,
}

/// A structural error found while tokenizing a word.
#[derive(PartialEq, Eq, Structural, Copy, Clone, Debug)]
pub enum ParseErrorKind {
    /// A `]` appeared with no group open.
    UnmatchedGroupClose,
    /// A `[` appeared immediately after the `[` that opened a group.
    NestedGroupOpen,
    /// The word ended while a group was still open.
    UnterminatedGroup,
}

/// A maximal run of input characters sharing one resolved kind.
#[derive(Debug)]
pub struct Token {
    /// The kind shared by every character of the run.
    pub kind: TokenKind,
    /// The characters of the run, copied out of the source word.
    pub value: String,
}

/// The mathematical image of a [`Token`]: its kind and the sequence of
/// characters it holds.
#[verifier::ext_equal]
pub ghost struct TokenView {
    /// The kind shared by every character of the run.
    pub kind: TokenKind,
    /// The characters of the run.
    pub value: Seq<char>,
}

impl Token {
    /// The characters the token holds, as a fresh string.
    pub fn to_string(&self) -> (s: String)
        ensures
            s@ == self@.value,
    {
        self.value.clone()
    }
}

impl View for Token {
    type V = TokenView;

    open spec fn view(&self) -> TokenView {
        TokenView { kind: self.kind, value: self.value@ }
    }
}

impl DeepView for Token {
    type V = TokenView;

    open spec fn deep_view(&self) -> TokenView {
        self@
    }
}

/// The syntactic class of one character: every character other than the
/// four metacharacters is ordinary.
pub open spec fn spec_char_kind(c: char) -> TokenKind {
    if c == '*' {
        TokenKind::Kleene
    } else if c == '?' {
        TokenKind::Single
    } else if c == '[' {
        TokenKind::GroupStart
    } else if c == ']' {
        TokenKind::GroupEnd
    } else {
        TokenKind::Normal
    }
}

/// Classifies one character of a word.
pub fn get_kind(ch: char) -> (k: TokenKind)
    ensures
        k == spec_char_kind(ch),
{
    match ch {
        '*' => TokenKind::Kleene,
        '?' => TokenKind::Single,
        '[' => TokenKind::GroupStart,
        ']' => TokenKind::GroupEnd,
        _ => TokenKind::Normal,
    }
}

/// The automaton's transition: from the current state and the next
/// character, the kind that character resolves to, or the structural error
/// it raises.
///
/// Outside a group every character resolves to its own class and a bare `]`
/// is rejected.  Immediately after `[` a second `[` is rejected and `]`
/// closes the (empty) group.  Later inside a group every character but `]`
/// is absorbed as an ordinary member, a second `[` included.
pub open spec fn spec_transition(state: TokenKind, c: char) -> Result<TokenKind, ParseErrorKind> {
    match state {
        TokenKind::GroupStart => {
            if c == ']' {
                Ok(TokenKind::GroupEnd)
            } else if c == '[' {
                Err(ParseErrorKind::NestedGroupOpen)
            } else {
                Ok(TokenKind::Group)
            }
        },
        TokenKind::Group => {
            if c == ']' {
                Ok(TokenKind::GroupEnd)
            } else {
                Ok(TokenKind::Group)
            }
        },
        _ => {
            if c == ']' {
                Err(ParseErrorKind::UnmatchedGroupClose)
            } else {
                Ok(spec_char_kind(c))
            }
        },
    }
}

/// Runs one step of the automaton.
pub fn transition(state: TokenKind, ch: char) -> (r: Result<TokenKind, ParseErrorKind>)
    ensures
        r == spec_transition(state, ch),
{
    let class = get_kind(ch);
    match state {
        TokenKind::GroupStart => match class {
            TokenKind::GroupEnd => Ok(TokenKind::GroupEnd),
            TokenKind::GroupStart => Err(ParseErrorKind::NestedGroupOpen),
            _ => Ok(TokenKind::Group),
        },
        TokenKind::Group => match class {
            TokenKind::GroupEnd => Ok(TokenKind::GroupEnd),
            _ => Ok(TokenKind::Group),
        },
        _ => match class {
            TokenKind::GroupEnd => Err(ParseErrorKind::UnmatchedGroupClose),
            _ => Ok(class),
        },
    }
}

/// The fixed message carried by each structural parse error.
pub open spec fn spec_error_message(k: ParseErrorKind) -> Seq<char> {
    match k {
        ParseErrorKind::UnmatchedGroupClose => "No start to group ended with \"]\"."@,
        ParseErrorKind::NestedGroupOpen => "Cannot nest groups."@,
        ParseErrorKind::UnterminatedGroup => "Group has no matching \"]\"."@,
    }
}

/// Hands out the fixed message of a structural parse error.
pub fn error_message(k: ParseErrorKind) -> (r: &'static str)
    ensures
        r@ == spec_error_message(k),
{
    match k {
        ParseErrorKind::UnmatchedGroupClose => "No start to group ended with \"]\".",
        ParseErrorKind::NestedGroupOpen => "Cannot nest groups.",
        ParseErrorKind::UnterminatedGroup => "Group has no matching \"]\".",
    }
}

/// One run of the tokenizer from position `i`, with `curr` the kind being
/// accumulated, `buf` the characters accumulated for it so far, and `toks`
/// the tokens already emitted.
///
/// A new token is opened exactly when a character's resolved kind differs
/// from the accumulating one; the closed token is pushed even when its
/// buffer is empty.  At end of input a word still inside a bracket group
/// fails with [`ParseErrorKind::UnterminatedGroup`]; otherwise the final
/// accumulating token is pushed.
pub open spec fn spec_tokenize_loop(
    s: Seq<char>,
    i: int,
    curr: TokenKind,
    buf: Seq<char>,
    toks: Seq<TokenView>,
) -> Result<Seq<TokenView>, ParseErrorKind>
    decreases s.len() - i,
{
    if i < 0 || i >= s.len() {
        if curr == TokenKind::GroupStart || curr == TokenKind::Group {
            Err(ParseErrorKind::UnterminatedGroup)
        } else {
            Ok(toks.push(TokenView { kind: curr, value: buf }))
        }
    } else {
        match spec_transition(curr, s[i]) {
            Err(e) => Err(e),
            Ok(k) => {
                if k == curr {
                    spec_tokenize_loop(s, i + 1, curr, buf.push(s[i]), toks)
                } else {
                    spec_tokenize_loop(
                        s,
                        i + 1,
                        k,
                        seq![s[i]],
                        toks.push(TokenView { kind: curr, value: buf }),
                    )
                }
            },
        }
    }
}

/// The token sequence of a word, or the first structural error its
/// characters raise.  The run starts in the ordinary state with an empty
/// buffer, so a word that starts with a metacharacter yields a leading
/// empty ordinary token, and the empty word yields exactly one such token.
pub open spec fn spec_tokenize(s: Seq<char>) -> Result<Seq<TokenView>, ParseErrorKind> {
    spec_tokenize_loop(s, 0, TokenKind::Normal, Seq::empty(), Seq::empty())
}

/// Tokenizes one raw argument word.
///
/// On success the ordered token sequence is exactly the one the automaton
/// model assigns to the word; on the first structural violation the run
/// aborts with that error's fixed message and no tokens.
pub fn parse_arg(arg: &str) -> (r: Result<Vec<Token>, &'static str>)
    ensures
        spec_tokenize(arg@) is Ok ==> r is Ok && r->Ok_0.deep_view() == spec_tokenize(arg@)->Ok_0,
        spec_tokenize(arg@) is Err ==> r is Err && r->Err_0@ == spec_error_message(
            spec_tokenize(arg@)->Err_0,
        ),
{
    let length: usize = arg.unicode_len();
    let mut tokens: Vec<Token> = Vec::new();
    let mut curr: TokenKind = TokenKind::Normal;
    let mut start: usize = 0;
    let mut i: usize = 0;
    proof {
        assert(arg@.subrange(0, 0) =~= Seq::<char>::empty());
        assert(tokens.deep_view() =~= Seq::<TokenView>::empty());
    }
    while i < length
        invariant
            start <= i <= length,
            length == arg@.len(),
            spec_tokenize(arg@) == spec_tokenize_loop(
                arg@,
                i as int,
                curr,
                arg@.subrange(start as int, i as int),
                tokens.deep_view(),
            ),
        decreases length - i,
    {
        let ghost buf = arg@.subrange(start as int, i as int);
        let ghost toks = tokens.deep_view();
        let ch = arg.get_char(i);
        match transition(curr, ch) {
            Err(e) => {
                return Err(error_message(e));
            },
            Ok(k) => {
                if k != curr {
                    let value = arg.substring_char(start, i).to_owned();
                    tokens.push(Token { kind: curr, value });
                    proof {
                        assert(tokens.deep_view() =~= toks.push(
                            TokenView { kind: curr, value: buf },
                        ));
                        assert(seq![arg@[i as int]] =~= arg@.subrange(i as int, i + 1));
                    }
                    curr = k;
                    start = i;
                } else {
                    proof {
                        assert(buf.push(arg@[i as int]) =~= arg@.subrange(
                            start as int,
                            i + 1,
                        ));
                    }
                }
            },
        }
        i = i + 1;
    }
    if curr == TokenKind::GroupStart || curr == TokenKind::Group {
        return Err(error_message(ParseErrorKind::UnterminatedGroup));
    }
    let ghost toks = tokens.deep_view();
    let value = arg.substring_char(start, length).to_owned();
    tokens.push(Token { kind: curr, value });
    proof {
        assert(tokens.deep_view() =~= toks.push(
            TokenView { kind: curr, value: arg@.subrange(start as int, length as int) },
        ));
    }
    Ok(tokens)
}

/// The characters of `cs` with duplicates dropped, each kept at its first
/// occurrence, in order of first occurrence.
pub open spec fn spec_dedup(cs: Seq<char>) -> Seq<char>
    decreases cs.len(),
{
    if cs.len() == 0 {
        Seq::empty()
    } else {
        let pre = spec_dedup(cs.drop_last());
        if pre.contains(cs.last()) {
            pre
        } else {
            pre.push(cs.last())
        }
    }
}

/// Deduplication is set-like: the deduplicated characters are exactly the
/// members of the original run, each exactly once, so duplicates in a
/// bracket expression collapse to one set member.
pub proof fn lemma_dedup_is_the_member_set(cs: Seq<char>)
    ensures
        forall|c: char| spec_dedup(cs).contains(c) <==> cs.contains(c),
        forall|i: int, j: int|
            0 <= i < j < spec_dedup(cs).len() ==> spec_dedup(cs)[i] != spec_dedup(cs)[j],
    decreases cs.len(),
{
    if cs.len() > 0 {
        let pre = cs.drop_last();
        lemma_dedup_is_the_member_set(pre);
        assert forall|c: char| cs.contains(c) implies spec_dedup(cs).contains(c) by {
            let w = choose|w: int| 0 <= w < cs.len() && cs[w] == c;
            if w < pre.len() {
                assert(pre[w] == c);
                assert(pre.contains(c));
                if spec_dedup(pre).contains(c) {
                    let v = choose|v: int| 0 <= v < spec_dedup(pre).len() && spec_dedup(pre)[v]
                        == c;
                    assert(spec_dedup(cs)[v] == c);
                }
            } else {
                if spec_dedup(pre).contains(cs.last()) {
                    let v = choose|v: int| 0 <= v < spec_dedup(pre).len() && spec_dedup(pre)[v]
                        == c;
                    assert(spec_dedup(cs)[v] == c);
                } else {
                    assert(spec_dedup(cs).last() == c);
                }
            }
        }
        assert forall|c: char| spec_dedup(cs).contains(c) implies cs.contains(c) by {
            let w = choose|w: int| 0 <= w < spec_dedup(cs).len() && spec_dedup(cs)[w] == c;
            if w < spec_dedup(pre).len() {
                assert(spec_dedup(pre)[w] == c);
                assert(spec_dedup(pre).contains(c));
                assert(pre.contains(c));
                let v = choose|v: int| 0 <= v < pre.len() && pre[v] == c;
                assert(cs[v] == c);
            } else {
                assert(c == cs.last());
                assert(cs[cs.len() - 1] == c);
            }
        }
    }
}

/// The members of an alternation joined by `|`: `a`, `a|b`, `a|b|c`, ...
pub open spec fn spec_join_alt(cs: Seq<char>) -> Seq<char>
    decreases cs.len(),
{
    if cs.len() == 0 {
        Seq::empty()
    } else if cs.len() == 1 {
        seq![cs[0]]
    } else {
        spec_join_alt(cs.drop_last()) + seq!['|', cs.last()]
    }
}

/// The expansion of a bracket group: a parenthesized alternation over the
/// deduplicated member characters.
pub open spec fn spec_group_expansion(value: Seq<char>) -> Seq<char> {
    seq!['('] + spec_join_alt(spec_dedup(value)) + seq![')']
}

/// The expansion of one token.  An ordinary run stands verbatim and
/// unescaped, a `*` run becomes the match-any-sequence operator, a `?` run
/// the match-one-character operator, a group its alternation; the bracket
/// boundary tokens contribute nothing.
pub open spec fn spec_compile_token(t: TokenView) -> Seq<char> {
    match t.kind {
        TokenKind::Normal => t.value,
        TokenKind::Kleene => seq!['.', '*'],
        TokenKind::Single => seq!['.'],
        TokenKind::Group => spec_group_expansion(t.value),
        TokenKind::GroupStart => Seq::empty(),
        TokenKind::GroupEnd => Seq::empty(),
    }
}

/// The compiled expression of a token sequence: each token's expansion,
/// concatenated in order.
pub open spec fn spec_compile(ts: Seq<TokenView>) -> Seq<char>
    decreases ts.len(),
{
    if ts.len() == 0 {
        Seq::empty()
    } else {
        spec_compile(ts.drop_last()) + spec_compile_token(ts.last())
    }
}

/// Compiling one more token appends that token's expansion.
proof fn lemma_compile_take_step(ts: Seq<TokenView>, i: int)
    requires
        0 <= i < ts.len(),
    ensures
        spec_compile(ts.take(i + 1)) == spec_compile(ts.take(i)) + spec_compile_token(ts[i]),
{
    assert(ts.take(i + 1).drop_last() =~= ts.take(i));
    assert(ts.take(i + 1).last() == ts[i]);
}

/// Whether a character occurs in a vector.
fn vec_contains_char(v: &Vec<char>, c: char) -> (r: bool)
    ensures
        r == v@.contains(c),
{
    let mut i: usize = 0;
    while i < v.len()
        invariant
            i <= v@.len(),
            forall|j: int| 0 <= j < i ==> v@[j] != c,
        decreases v@.len() - i,
    {
        if v[i] == c {
            return true;
        }
        i = i + 1;
    }
    false
}

/// Appends a bracket group's expansion to a growing expression: the
/// deduplicated member characters, parenthesized and joined by `|`.
fn append_group(re: &mut String, value: &str)
    ensures
        final(re)@ == old(re)@ + spec_group_expansion(value@),
{
    let n = value.unicode_len();
    let mut members: Vec<char> = Vec::new();
    let mut positions: Vec<usize> = Vec::new();
    let mut j: usize = 0;
    proof {
        assert(value@.take(0) =~= Seq::<char>::empty());
    }
    while j < n
        invariant
            j <= n,
            n == value@.len(),
            members@ == spec_dedup(value@.take(j as int)),
            positions@.len() == members@.len(),
            forall|k: int| 0 <= k < positions@.len() ==> #[trigger] positions@[k] < n,
            forall|k: int| 0 <= k < positions@.len() ==> value@[#[trigger] positions@[k] as int]
                == members@[k],
        decreases n - j,
    {
        let c = value.get_char(j);
        proof {
            assert(value@.take(j + 1).drop_last() =~= value@.take(j as int));
        }
        if !vec_contains_char(&members, c) {
            let ghost old_members = members@;
            let ghost old_positions = positions@;
            members.push(c);
            positions.push(j);
            proof {
                assert forall|k: int| 0 <= k < positions@.len() implies positions@[k] < n
                    && value@[positions@[k] as int] == members@[k] by {
                    assert(positions@ == old_positions.push(j));
                    assert(members@ == old_members.push(c));
                    if k < old_positions.len() {
                        assert(positions@[k] == old_positions[k]);
                        assert(members@[k] == old_members[k]);
                    } else {
                        assert(positions@[k] == j);
                        assert(members@[k] == c);
                    }
                }
            }
        }
        j = j + 1;
    }
    proof {
        assert(value@.take(n as int) =~= value@);
    }
    re.append("(");
    let m = members.len();
    let ghost opened = old(re)@ + "("@;
    let mut k: usize = 0;
    proof {
        assert(members@.take(0) =~= Seq::<char>::empty());
        assert(re@ =~= opened + spec_join_alt(members@.take(0)));
    }
    while k < m
        invariant
            k <= m,
            m == members@.len(),
            positions@.len() == members@.len(),
            n == value@.len(),
            forall|t: int| 0 <= t < positions@.len() ==> #[trigger] positions@[t] < n,
            forall|t: int| 0 <= t < positions@.len() ==> value@[#[trigger] positions@[t] as int]
                == members@[t],
            re@ == opened + spec_join_alt(members@.take(k as int)),
        decreases m - k,
    {
        proof {
            assert(members@.take(k + 1).drop_last() =~= members@.take(k as int));
        }
        if k > 0 {
            re.append("|");
            proof {
                reveal_strlit("|");
            }
        }
        let pos = positions[k];
        let piece = value.substring_char(pos, pos + 1);
        proof {
            assert(piece@ =~= seq![members@[k as int]]);
            if k > 0 {
                assert(spec_join_alt(members@.take(k + 1)) =~= spec_join_alt(
                    members@.take(k as int),
                ) + seq!['|', members@[k as int]]);
            } else {
                assert(spec_join_alt(members@.take(1)) =~= seq![members@[0]]);
            }
        }
        re.append(piece);
        k = k + 1;
    }
    proof {
        assert(members@.take(m as int) =~= members@);
        reveal_strlit("(");
        reveal_strlit(")");
        assert("("@ =~= seq!['(']);
        assert(")"@ =~= seq![')']);
    }
    re.append(")");
    proof {
        assert(re@ =~= old(re)@ + spec_group_expansion(value@));
    }
}

/// Compiles one token sequence into its match expression.
fn compile_tokens(list: &Vec<Token>) -> (re: String)
    ensures
        re@ == spec_compile(list.deep_view()),
{
    let mut re = String::new();
    let mut ti: usize = 0;
    proof {
        assert(list.deep_view().take(0) =~= Seq::<TokenView>::empty());
        assert(re@ =~= spec_compile(list.deep_view().take(0)));
    }
    while ti < list.len()
        invariant
            ti <= list@.len(),
            list.deep_view().len() == list@.len(),
            re@ == spec_compile(list.deep_view().take(ti as int)),
        decreases list@.len() - ti,
    {
        proof {
            lemma_compile_take_step(list.deep_view(), ti as int);
        }
        let tok = &list[ti];
        proof {
            assert(list.deep_view()[ti as int] == tok@);
        }
        match tok.kind {
            TokenKind::Normal => {
                re.append(tok.value.as_str());
            },
            TokenKind::Kleene => {
                re.append(".*");
                proof {
                    reveal_strlit(".*");
                    assert(".*"@ =~= seq!['.', '*']);
                }
            },
            TokenKind::Single => {
                re.append(".");
                proof {
                    reveal_strlit(".");
                    assert("."@ =~= seq!['.']);
                }
            },
            TokenKind::Group => {
                append_group(&mut re, tok.value.as_str());
            },
            TokenKind::GroupStart => {},
            TokenKind::GroupEnd => {},
        }
        ti = ti + 1;
    }
    proof {
        assert(list.deep_view().take(list@.len() as int) =~= list.deep_view());
    }
    re
}

/// Compiles each token sequence into one match expression, in order: every
/// ordinary run stands verbatim, `*` and `?` runs become the
/// match-any-sequence and match-one-character operators, and each bracket
/// group becomes an alternation over its deduplicated member set.
pub fn build_regex(token_lists: Vec<Vec<Token>>) -> (r: Vec<String>)
    ensures
        r@.len() == token_lists@.len(),
        forall|i: int| 0 <= i < token_lists@.len() ==> r@[i]@ == spec_compile(
            #[trigger] token_lists@[i].deep_view(),
        ),
{
    let mut re_vec: Vec<String> = Vec::new();
    let mut li: usize = 0;
    while li < token_lists.len()
        invariant
            li <= token_lists@.len(),
            re_vec@.len() == li,
            forall|i: int| 0 <= i < li ==> re_vec@[i]@ == spec_compile(
                #[trigger] token_lists@[i].deep_view(),
            ),
        decreases token_lists@.len() - li,
    {
        let re = compile_tokens(&token_lists[li]);
        re_vec.push(re);
        li = li + 1;
    }
    re_vec
}

/// A successful run from any position ends with a token whose kind is
/// neither the group opener nor the group body.
proof fn lemma_tokenize_loop_ends_closed(
    s: Seq<char>,
    i: int,
    curr: TokenKind,
    buf: Seq<char>,
    toks: Seq<TokenView>,
)
    requires
        0 <= i <= s.len(),
        spec_tokenize_loop(s, i, curr, buf, toks) is Ok,
    ensures
        spec_tokenize_loop(s, i, curr, buf, toks)->Ok_0.len() > 0,
        spec_tokenize_loop(s, i, curr, buf, toks)->Ok_0.last().kind != TokenKind::GroupStart,
        spec_tokenize_loop(s, i, curr, buf, toks)->Ok_0.last().kind != TokenKind::Group,
    decreases s.len() - i,
{
    if i < s.len() {
        match spec_transition(curr, s[i]) {
            Err(e) => {},
            Ok(k) => {
                if k == curr {
                    lemma_tokenize_loop_ends_closed(s, i + 1, curr, buf.push(s[i]), toks);
                } else {
                    lemma_tokenize_loop_ends_closed(
                        s,
                        i + 1,
                        k,
                        seq![s[i]],
                        toks.push(TokenView { kind: curr, value: buf }),
                    );
                }
            },
        }
    }
}

/// A successful tokenizer run is never left "inside" a bracket: its token
/// sequence is non-empty and ends with a token whose kind is neither the
/// group opener nor the group body.
pub proof fn lemma_run_ends_outside_group(s: Seq<char>)
    requires
        spec_tokenize(s) is Ok,
    ensures
        spec_tokenize(s)->Ok_0.len() > 0,
        spec_tokenize(s)->Ok_0.last().kind != TokenKind::GroupStart,
        spec_tokenize(s)->Ok_0.last().kind != TokenKind::Group,
{
    lemma_tokenize_loop_ends_closed(s, 0, TokenKind::Normal, Seq::empty(), Seq::empty());
}

/// A successful run from any position keeps bracket boundary tokens
/// singleton-valued, provided the tokens emitted so far are and the
/// accumulating one is whenever its kind is a bracket boundary.
proof fn lemma_tokenize_loop_singletons(
    s: Seq<char>,
    i: int,
    curr: TokenKind,
    buf: Seq<char>,
    toks: Seq<TokenView>,
)
    requires
        0 <= i <= s.len(),
        spec_tokenize_loop(s, i, curr, buf, toks) is Ok,
        curr == TokenKind::GroupStart || curr == TokenKind::GroupEnd ==> buf.len() == 1,
        forall|k: int|
            0 <= k < toks.len() && (#[trigger] toks[k].kind == TokenKind::GroupStart
                || toks[k].kind == TokenKind::GroupEnd) ==> toks[k].value.len() == 1,
    ensures
        forall|k: int|
            0 <= k < spec_tokenize_loop(s, i, curr, buf, toks)->Ok_0.len()
                && (#[trigger] spec_tokenize_loop(s, i, curr, buf, toks)->Ok_0[k].kind
                == TokenKind::GroupStart || spec_tokenize_loop(s, i, curr, buf, toks)->Ok_0[k].kind
                == TokenKind::GroupEnd) ==> spec_tokenize_loop(
                s,
                i,
                curr,
                buf,
                toks,
            )->Ok_0[k].value.len() == 1,
    decreases s.len() - i,
{
    if i < s.len() {
        match spec_transition(curr, s[i]) {
            Err(e) => {},
            Ok(k) => {
                if k == curr {
                    lemma_tokenize_loop_singletons(s, i + 1, curr, buf.push(s[i]), toks);
                } else {
                    lemma_tokenize_loop_singletons(
                        s,
                        i + 1,
                        k,
                        seq![s[i]],
                        toks.push(TokenView { kind: curr, value: buf }),
                    );
                }
            },
        }
    }
}

/// Bracket boundary tokens are always singletons: in a successful run,
/// every token whose kind is the group opener or the group closer holds
/// exactly one character.
pub proof fn lemma_boundary_tokens_are_singletons(s: Seq<char>)
    requires
        spec_tokenize(s) is Ok,
    ensures
        forall|k: int|
            0 <= k < spec_tokenize(s)->Ok_0.len() && (#[trigger] spec_tokenize(s)->Ok_0[k].kind
                == TokenKind::GroupStart || spec_tokenize(s)->Ok_0[k].kind == TokenKind::GroupEnd)
                ==> spec_tokenize(s)->Ok_0[k].value.len() == 1,
{
    lemma_tokenize_loop_singletons(s, 0, TokenKind::Normal, Seq::empty(), Seq::empty());
}

/// A run of the tokenizer that sees only ordinary characters from position
/// `i` on, while accumulating an ordinary token, extends that token to the
/// end of the word and emits nothing else.
proof fn lemma_tokenize_loop_all_normal(s: Seq<char>, i: int, buf: Seq<char>, toks: Seq<TokenView>)
    requires
        0 <= i <= s.len(),
        forall|k: int| i <= k < s.len() ==> spec_char_kind(#[trigger] s[k]) == TokenKind::Normal,
    ensures
        spec_tokenize_loop(s, i, TokenKind::Normal, buf, toks) == Ok::<
            Seq<TokenView>,
            ParseErrorKind,
        >(toks.push(TokenView { kind: TokenKind::Normal, value: buf + s.skip(i) })),
    decreases s.len() - i,
{
    if i == s.len() {
        assert(buf + s.skip(i) =~= buf);
    } else {
        lemma_tokenize_loop_all_normal(s, i + 1, buf.push(s[i]), toks);
        assert(buf.push(s[i]) + s.skip(i + 1) =~= buf + s.skip(i));
    }
}

/// For every word with no metacharacters, tokenizing yields exactly one
/// ordinary token equal to the word, and compiling that token sequence
/// yields the word unchanged.
pub proof fn lemma_literal_word_identity(s: Seq<char>)
    requires
        forall|k: int| 0 <= k < s.len() ==> spec_char_kind(#[trigger] s[k]) == TokenKind::Normal,
    ensures
        spec_tokenize(s) == Ok::<Seq<TokenView>, ParseErrorKind>(
            seq![TokenView { kind: TokenKind::Normal, value: s }],
        ),
        spec_compile(seq![TokenView { kind: TokenKind::Normal, value: s }]) == s,
{
    lemma_tokenize_loop_all_normal(s, 0, Seq::empty(), Seq::empty());
    assert(Seq::<char>::empty() + s.skip(0) =~= s);
    assert(Seq::<TokenView>::empty().push(TokenView { kind: TokenKind::Normal, value: s }) =~= seq![
        TokenView { kind: TokenKind::Normal, value: s },
    ]);
    let ts = seq![TokenView { kind: TokenKind::Normal, value: s }];
    assert(ts.drop_last() =~= Seq::<TokenView>::empty());
    assert(spec_compile(ts) == spec_compile(ts.drop_last()) + spec_compile_token(ts.last()));
    assert(Seq::<char>::empty() + s =~= s);
}


} // verus!
