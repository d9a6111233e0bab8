//! The tokenizer: from a text to a tree of tokens, one level of nesting for
//! each pair of brackets.
use vstd::prelude::*;
use crate::error::EbdbError;
use crate::error::EbdbErrorView;
use crate::error::EbdbResult;
use crate::error::result_view;
use crate::text::chars_of;
use crate::text::string_of;

verus! {

/// One token of a schema text. A container token owns the tokens that stand
/// between its brackets.
#[derive(Debug)]
pub enum Token {
    /// A run of characters that belong to no other token.
    Identifier(String),
    /// What stands between `(` and `)`.
    Parenthesis(Vec<Token>),
    /// What stands between `{` and `}`.
    Curly(Vec<Token>),
    /// What stands between `[` and `]`.
    Square(Vec<Token>),
    /// What stands between two `"`, without them.
    Quoted(String),
    /// `,`
    Commas,
    /// `?`
    QuestionMark,
    /// `!`
    ExclamationMark,
}

/// The mathematical value of a [`Token`]: texts are sequences of characters,
/// nested tokens are sequences of token values.
pub enum TokenView {
    Identifier(Seq<char>),
    Parenthesis(Seq<TokenView>),
    Curly(Seq<TokenView>),
    Square(Seq<TokenView>),
    Quoted(Seq<char>),
    Commas,
    QuestionMark,
    ExclamationMark,
}

/// The value of one token.
pub open spec fn token_view(token: Token) -> TokenView
    decreases token,
{
    match token {
        Token::Identifier(text) => TokenView::Identifier(text@),
        Token::Parenthesis(inner) => TokenView::Parenthesis(
            Seq::new(
                inner@.len(),
                |i: int| if 0 <= i < inner@.len() { token_view(inner@[i]) } else { TokenView::Commas },
            ),
        ),
        Token::Curly(inner) => TokenView::Curly(
            Seq::new(
                inner@.len(),
                |i: int| if 0 <= i < inner@.len() { token_view(inner@[i]) } else { TokenView::Commas },
            ),
        ),
        Token::Square(inner) => TokenView::Square(
            Seq::new(
                inner@.len(),
                |i: int| if 0 <= i < inner@.len() { token_view(inner@[i]) } else { TokenView::Commas },
            ),
        ),
        Token::Quoted(text) => TokenView::Quoted(text@),
        Token::Commas => TokenView::Commas,
        Token::QuestionMark => TokenView::QuestionMark,
        Token::ExclamationMark => TokenView::ExclamationMark,
    }
}

impl View for Token {
    type V = TokenView;

    open spec fn view(&self) -> TokenView {
        token_view(*self)
    }
}

impl DeepView for Token {
    type V = TokenView;

    open spec fn deep_view(&self) -> TokenView {
        token_view(*self)
    }
}

/// A container token's value holds the values of the tokens inside it.
pub proof fn lemma_container_view(token: Token)
    ensures
        token matches Token::Parenthesis(inner) ==> token.deep_view() == TokenView::Parenthesis(
            inner.deep_view(),
        ),
        token matches Token::Curly(inner) ==> token.deep_view() == TokenView::Curly(
            inner.deep_view(),
        ),
        token matches Token::Square(inner) ==> token.deep_view() == TokenView::Square(
            inner.deep_view(),
        ),
{
    match token {
        Token::Parenthesis(inner) => {
            assert(token.deep_view()->Parenthesis_0 =~= inner.deep_view());
        },
        Token::Curly(inner) => {
            assert(token.deep_view()->Curly_0 =~= inner.deep_view());
        },
        Token::Square(inner) => {
            assert(token.deep_view()->Square_0 =~= inner.deep_view());
        },
        _ => {},
    }
}

impl Clone for Token {
    /// A token of the same value.
    fn clone(&self) -> (copy: Self)
        ensures
            copy.deep_view() == self.deep_view(),
        decreases self,
    {
        proof {
            lemma_container_view(*self);
        }
        let copy = match self {
            Token::Identifier(text) => Token::Identifier(text.clone()),
            Token::Parenthesis(inner) => Token::Parenthesis(clone_tokens(inner)),
            Token::Curly(inner) => Token::Curly(clone_tokens(inner)),
            Token::Square(inner) => Token::Square(clone_tokens(inner)),
            Token::Quoted(text) => Token::Quoted(text.clone()),
            Token::Commas => Token::Commas,
            Token::QuestionMark => Token::QuestionMark,
            Token::ExclamationMark => Token::ExclamationMark,
        };
        proof {
            lemma_container_view(copy);
        }
        copy
    }
}

/// Tokens of the same values.
fn clone_tokens(tokens: &Vec<Token>) -> (copy: Vec<Token>)
    ensures
        copy.deep_view() == tokens.deep_view(),
    decreases tokens,
{
    let mut copy: Vec<Token> = Vec::new();
    let mut i: usize = 0;
    while i < tokens.len()
        invariant
            i <= tokens.len(),
            copy.len() == i,
            forall|k: int| 0 <= k < i ==> (#[trigger] copy@[k]).deep_view() == tokens@[k].deep_view(),
        decreases tokens.len() - i,
    {
        copy.push(tokens[i].clone());
        i += 1;
    }
    copy
}

/// The text that `{:?}` writes for a token.
pub uninterp spec fn token_debug_text(token: TokenView) -> Seq<char>;

/// `format!` with `{:?}` writes a token through the `Debug` that is derived
/// for it: the name of the variant and, in brackets behind it, what the
/// variant holds, written in the same way. The text depends on nothing but
/// the token's value, and that is all that is claimed of it.
#[verifier::external_body]
pub(crate) fn debug_text(token: &Token) -> (text: String)
    ensures
        text@ == token_debug_text(token@),
{
    format!("{:?}", token)
}

/// Space, tab, line feed and carriage return separate tokens and are dropped.
#[verifier::allow_in_spec]
pub fn is_blank(c: char) -> bool
    returns
        c == ' ' || c == '\t' || c == '\n' || c == '\r',
{
    c == ' ' || c == '\t' || c == '\n' || c == '\r'
}

/// `(`, `{` and `[` open a container.
#[verifier::allow_in_spec]
pub fn is_opener(c: char) -> bool
    returns
        c == '(' || c == '{' || c == '[',
{
    c == '(' || c == '{' || c == '['
}

/// `)`, `}` and `]` close a container.
#[verifier::allow_in_spec]
pub fn is_closer(c: char) -> bool
    returns
        c == ')' || c == '}' || c == ']',
{
    c == ')' || c == '}' || c == ']'
}

/// `,`, `?` and `!` are tokens by themselves.
#[verifier::allow_in_spec]
pub fn is_mark(c: char) -> bool
    returns
        c == ',' || c == '?' || c == '!',
{
    c == ',' || c == '?' || c == '!'
}

/// The character that closes what `opener` opens.
#[verifier::allow_in_spec]
pub fn closer_of(opener: char) -> char
    returns
        (if opener == '(' {
            ')'
        } else if opener == '{' {
            '}'
        } else {
            ']'
        }),
{
    if opener == '(' {
        ')'
    } else if opener == '{' {
        '}'
    } else {
        ']'
    }
}

/// Whether `c` is the character that the current level waits for.
#[verifier::allow_in_spec]
pub fn is_exit(c: char, exit: Option<char>) -> bool
    returns
        exit == Some(c),
{
    match exit {
        Some(e) => e == c,
        None => false,
    }
}

/// Whether `c` cannot stand inside an identifier: a blank, a bracket, a mark,
/// a quote, or the character that the current level waits for.
#[verifier::allow_in_spec]
pub fn ends_word(c: char, exit: Option<char>) -> bool
    returns
        is_blank(c) || is_opener(c) || is_closer(c) || is_mark(c) || c == '"' || is_exit(c, exit),
{
    is_blank(c) || is_opener(c) || is_closer(c) || is_mark(c) || c == '"' || is_exit(c, exit)
}

/// The container token that `opener` starts, around `inner`.
pub open spec fn container(opener: char, inner: Seq<TokenView>) -> TokenView {
    if opener == '(' {
        TokenView::Parenthesis(inner)
    } else if opener == '{' {
        TokenView::Curly(inner)
    } else {
        TokenView::Square(inner)
    }
}

/// The token that a mark stands for.
pub open spec fn mark(c: char) -> TokenView {
    if c == ',' {
        TokenView::Commas
    } else if c == '?' {
        TokenView::QuestionMark
    } else {
        TokenView::ExclamationMark
    }
}

/// How many characters from `from` on can stand inside one identifier.
pub open spec fn word_length(s: Seq<char>, from: int, exit: Option<char>) -> nat
    decreases s.len() - from,
{
    if 0 <= from < s.len() && !ends_word(s[from], exit) {
        1 + word_length(s, from + 1, exit)
    } else {
        0
    }
}

/// How many characters from `from` on stand before the next `"`, or before
/// the end of the text where there is none.
pub open spec fn quoted_length(s: Seq<char>, from: int) -> nat
    decreases s.len() - from,
{
    if 0 <= from < s.len() && s[from] != '"' {
        1 + quoted_length(s, from + 1)
    } else {
        0
    }
}

/// What tokenizing gives: the tokens of one level and the place where it
/// stopped, or the first error.
pub type Lexed = Result<(Seq<TokenView>, int), EbdbErrorView>;

/// `rest` with `first` put before its tokens.
pub open spec fn with_first(first: TokenView, rest: Lexed) -> Lexed {
    match rest {
        Ok((tokens, at)) => Ok((seq![first] + tokens, at)),
        Err(e) => Err(e),
    }
}

/// The tokens of one level of `s`, read from `from` on.
///
/// With `exit` absent this is the top level: it ends at the end of the text,
/// and the place returned is the length of the text. With `exit` present it
/// is the inside of a container: it ends at the first `exit` that is not part
/// of a deeper container or of a quoted span, and that place is returned; the
/// end of the text is then an error.
///
/// The character at `from` decides, in this order:
/// - `exit` ends the level;
/// - a blank is skipped;
/// - an opening bracket starts a container, whose inside is the level that
///   ends at the matching closing bracket;
/// - a closing bracket is an error: the wrong one where one is awaited, a
///   stray one at the top level;
/// - `,`, `?` and `!` are tokens by themselves;
/// - `"` starts a quoted span, which runs to the next `"` whatever stands in
///   between, and is an error where there is none;
/// - anything else starts an identifier, which runs as far as `ends_word`
///   allows.
pub open spec fn lex(s: Seq<char>, from: int, exit: Option<char>) -> Lexed
    decreases
        (if from < s.len() {
            s.len() - from
        } else {
            0
        }),
{
    if from < 0 || from >= s.len() {
        match exit {
            Some(awaited) => Err(EbdbErrorView::MissingCharacter(awaited)),
            None => Ok((Seq::empty(), s.len() as int)),
        }
    } else {
        let c = s[from];
        if is_exit(c, exit) {
            Ok((Seq::empty(), from))
        } else if is_blank(c) {
            lex(s, from + 1, exit)
        } else if is_opener(c) {
            match lex(s, from + 1, Some(closer_of(c))) {
                Err(e) => Err(e),
                Ok((inner, at)) => if from < at {
                    with_first(container(c, inner), lex(s, at + 1, exit))
                } else {
                    // never taken: an inner level stops at its closing bracket
                    Err(EbdbErrorView::MissingCharacter(closer_of(c)))
                },
            }
        } else if is_closer(c) {
            match exit {
                Some(awaited) => Err(EbdbErrorView::WrongClosingContainer(awaited, c)),
                None => Err(EbdbErrorView::ClosingNonExistingContainer(c)),
            }
        } else if is_mark(c) {
            with_first(mark(c), lex(s, from + 1, exit))
        } else if c == '"' {
            let close = from + 1 + quoted_length(s, from + 1);
            if close >= s.len() {
                Err(EbdbErrorView::MissingCharacter('"'))
            } else {
                with_first(
                    TokenView::Quoted(s.subrange(from + 1, close)),
                    lex(s, close + 1, exit),
                )
            }
        } else {
            let end = from + 1 + word_length(s, from + 1, exit);
            with_first(TokenView::Identifier(s.subrange(from, end)), lex(s, end, exit))
        }
    }
}

/// The tokens of a level, without the place where it stopped.
pub open spec fn lexed_tokens(lexed: Lexed) -> Result<Seq<TokenView>, EbdbErrorView> {
    match lexed {
        Ok((tokens, _)) => Ok(tokens),
        Err(e) => Err(e),
    }
}

/// The tokens of a whole text.
pub open spec fn tokens_of(s: Seq<char>) -> Result<Seq<TokenView>, EbdbErrorView> {
    lexed_tokens(lex(s, 0, None))
}

/// An identifier that starts inside the text ends inside it, and the
/// character behind it, if there is one, cannot stand inside an identifier.
pub proof fn lemma_word_length(s: Seq<char>, from: int, exit: Option<char>)
    requires
        0 <= from <= s.len(),
    ensures
        from + word_length(s, from, exit) <= s.len(),
        from + word_length(s, from, exit) < s.len() ==> ends_word(
            s[from + word_length(s, from, exit)],
            exit,
        ),
        forall|i: int|
            from <= i < from + word_length(s, from, exit) ==> !ends_word(#[trigger] s[i], exit),
    decreases s.len() - from,
{
    if from < s.len() && !ends_word(s[from], exit) {
        lemma_word_length(s, from + 1, exit);
    }
}

/// A quoted span that starts inside the text ends inside it, at a `"` if it
/// ends before the end of the text, and holds no `"`.
pub proof fn lemma_quoted_length(s: Seq<char>, from: int)
    requires
        0 <= from <= s.len(),
    ensures
        from + quoted_length(s, from) <= s.len(),
        from + quoted_length(s, from) < s.len() ==> s[from + quoted_length(s, from)] == '"',
        forall|i: int| from <= i < from + quoted_length(s, from) ==> #[trigger] s[i] != '"',
    decreases s.len() - from,
{
    if from < s.len() && s[from] != '"' {
        lemma_quoted_length(s, from + 1);
    }
}

/// Where a level stops: the top level at the end of the text, the inside of
/// a container at the character it waited for.
pub proof fn lemma_lex_stops(s: Seq<char>, from: int, exit: Option<char>)
    requires
        0 <= from <= s.len(),
    ensures
        lex(s, from, exit) matches Ok((_, at)) ==> {
            &&& from <= at <= s.len()
            &&& exit is None ==> at == s.len()
            &&& exit matches Some(awaited) ==> at < s.len() && s[at] == awaited
        },
    decreases s.len() - from,
{
    if from < s.len() {
        let c = s[from];
        if is_exit(c, exit) {
        } else if is_blank(c) {
            lemma_lex_stops(s, from + 1, exit);
        } else if is_opener(c) {
            lemma_lex_stops(s, from + 1, Some(closer_of(c)));
            if let Ok((_, at)) = lex(s, from + 1, Some(closer_of(c))) {
                lemma_lex_stops(s, at + 1, exit);
            }
        } else if is_closer(c) {
        } else if is_mark(c) {
            lemma_lex_stops(s, from + 1, exit);
        } else if c == '"' {
            lemma_quoted_length(s, from + 1);
            let close = from + 1 + quoted_length(s, from + 1);
            if close < s.len() {
                lemma_lex_stops(s, close + 1, exit);
            }
        } else {
            lemma_word_length(s, from + 1, exit);
            lemma_lex_stops(s, from + 1 + word_length(s, from + 1, exit), exit);
        }
    }
}

/// Whether a token is one that a text can write: an identifier is not empty
/// and holds nothing that ends a word, a quoted span holds no `"`, and the
/// tokens inside a container are such tokens too.
pub open spec fn well_lexed(token: TokenView) -> bool
    decreases token,
{
    match token {
        TokenView::Identifier(text) => text.len() > 0 && forall|i: int|
            0 <= i < text.len() ==> !ends_word(#[trigger] text[i], None),
        TokenView::Quoted(text) => forall|i: int| 0 <= i < text.len() ==> #[trigger] text[i] != '"',
        TokenView::Parenthesis(inner) => forall|i: int|
            0 <= i < inner.len() ==> well_lexed(#[trigger] inner[i]),
        TokenView::Curly(inner) => forall|i: int|
            0 <= i < inner.len() ==> well_lexed(#[trigger] inner[i]),
        TokenView::Square(inner) => forall|i: int|
            0 <= i < inner.len() ==> well_lexed(#[trigger] inner[i]),
        _ => true,
    }
}

/// Every token that tokenizing gives is one that a text can write.
pub proof fn lemma_lex_well_lexed(s: Seq<char>, from: int, exit: Option<char>)
    requires
        0 <= from <= s.len(),
    ensures
        lex(s, from, exit) matches Ok((tokens, _)) ==> forall|i: int|
            0 <= i < tokens.len() ==> well_lexed(#[trigger] tokens[i]),
    decreases s.len() - from,
{
    if from < s.len() {
        let c = s[from];
        if is_exit(c, exit) {
        } else if is_blank(c) {
            lemma_lex_well_lexed(s, from + 1, exit);
        } else if is_opener(c) {
            lemma_lex_well_lexed(s, from + 1, Some(closer_of(c)));
            lemma_lex_stops(s, from + 1, Some(closer_of(c)));
            if let Ok((inner, at)) = lex(s, from + 1, Some(closer_of(c))) {
                lemma_lex_well_lexed(s, at + 1, exit);
                lemma_with_first_well_lexed(container(c, inner), lex(s, at + 1, exit));
            }
        } else if is_closer(c) {
        } else if is_mark(c) {
            lemma_lex_well_lexed(s, from + 1, exit);
            lemma_with_first_well_lexed(mark(c), lex(s, from + 1, exit));
        } else if c == '"' {
            lemma_quoted_length(s, from + 1);
            let close = from + 1 + quoted_length(s, from + 1);
            if close < s.len() {
                lemma_lex_well_lexed(s, close + 1, exit);
                let text = s.subrange(from + 1, close);
                assert forall|i: int| 0 <= i < text.len() implies #[trigger] text[i] != '"' by {}
                lemma_with_first_well_lexed(TokenView::Quoted(text), lex(s, close + 1, exit));
            }
        } else {
            lemma_word_length(s, from + 1, exit);
            let end = from + 1 + word_length(s, from + 1, exit);
            lemma_lex_well_lexed(s, end, exit);
            let text = s.subrange(from, end);
            assert forall|i: int| 0 <= i < text.len() implies !ends_word(
                #[trigger] text[i],
                None,
            ) by {}
            lemma_with_first_well_lexed(TokenView::Identifier(text), lex(s, end, exit));
        }
    }
}

/// Putting such a token before such tokens gives such tokens.
proof fn lemma_with_first_well_lexed(first: TokenView, rest: Lexed)
    requires
        well_lexed(first),
        rest matches Ok((tokens, _)) ==> forall|i: int|
            0 <= i < tokens.len() ==> well_lexed(#[trigger] tokens[i]),
    ensures
        with_first(first, rest) matches Ok((tokens, _)) ==> forall|i: int|
            0 <= i < tokens.len() ==> well_lexed(#[trigger] tokens[i]),
{
    if let Ok((tokens, _)) = rest {
        let all = seq![first] + tokens;
        assert forall|i: int| 0 <= i < all.len() implies well_lexed(#[trigger] all[i]) by {}
    }
}

/// A text that holds no closing bracket, and not the character that the
/// level waits for, leaves something open: tokenizing it fails for want of a
/// closing character.
pub proof fn lemma_unclosed(s: Seq<char>, from: int, awaited: char)
    requires
        0 <= from <= s.len(),
        forall|i: int| from <= i < s.len() ==> !is_closer(#[trigger] s[i]) && s[i] != awaited,
    ensures
        lex(s, from, Some(awaited)) matches Err(e) && e is MissingCharacter,
    decreases s.len() - from,
{
    let exit = Some(awaited);
    if from < s.len() {
        let c = s[from];
        if is_blank(c) {
            lemma_unclosed(s, from + 1, awaited);
        } else if is_opener(c) {
            lemma_unclosed(s, from + 1, closer_of(c));
        } else if is_mark(c) {
            lemma_unclosed(s, from + 1, awaited);
        } else if c == '"' {
            lemma_quoted_length(s, from + 1);
            let close = from + 1 + quoted_length(s, from + 1);
            if close < s.len() {
                lemma_unclosed(s, close + 1, awaited);
            }
        } else {
            lemma_word_length(s, from + 1, exit);
            lemma_unclosed(s, from + 1 + word_length(s, from + 1, exit), awaited);
        }
    }
}

/// An opening bracket that no closing bracket follows makes the whole text
/// fail for want of a closing character. (The bracket at `at` is one: no
/// quote stands before it, so it is not part of a quoted span.)
pub proof fn lemma_open_bracket_unclosed(s: Seq<char>, from: int, at: int)
    requires
        0 <= from <= at < s.len(),
        is_opener(s[at]),
        forall|i: int| from <= i < s.len() ==> !is_closer(#[trigger] s[i]),
        forall|i: int| from <= i < at ==> #[trigger] s[i] != '"',
    ensures
        lex(s, from, None) matches Err(e) && e is MissingCharacter,
    decreases at - from,
{
    let c = s[from];
    if is_opener(c) {
        lemma_unclosed(s, from + 1, closer_of(c));
    } else if is_blank(c) || is_mark(c) {
        lemma_open_bracket_unclosed(s, from + 1, at);
    } else {
        lemma_word_length(s, from + 1, None);
        lemma_open_bracket_unclosed(s, from + 1 + word_length(s, from + 1, None), at);
    }
}

/// The first closing bracket of a level decides, where no bracket was
/// opened and no quote stands before it: unless it is the one that the level
/// waits for, the text fails with it, as the wrong closing bracket inside a
/// container and as a stray one at the top level.
pub proof fn lemma_first_closer(s: Seq<char>, from: int, at: int, exit: Option<char>)
    requires
        0 <= from <= at < s.len(),
        is_closer(s[at]),
        forall|i: int|
            from <= i <= at ==> !is_opener(#[trigger] s[i]) && s[i] != '"' && !is_exit(s[i], exit),
        forall|i: int| from <= i < at ==> !is_closer(#[trigger] s[i]),
    ensures
        exit matches Some(awaited) ==> lex(s, from, exit) == Err::<(Seq<TokenView>, int), _>(
            EbdbErrorView::WrongClosingContainer(awaited, s[at]),
        ),
        exit is None ==> lex(s, from, exit) == Err::<(Seq<TokenView>, int), _>(
            EbdbErrorView::ClosingNonExistingContainer(s[at]),
        ),
    decreases at - from,
{
    let c = s[from];
    if from == at {
    } else if is_blank(c) || is_mark(c) {
        lemma_first_closer(s, from + 1, at, exit);
    } else {
        lemma_word_length(s, from + 1, exit);
        lemma_first_closer(s, from + 1 + word_length(s, from + 1, exit), at, exit);
    }
}

/// A container that has been opened and not yet closed: the tokens that
/// stand before it on its own level, the bracket that opened it, and what
/// its own level waits for.
struct Frame {
    tokens: Vec<Token>,
    opener: char,
    exit: Option<char>,
}

struct FrameView {
    tokens: Seq<TokenView>,
    opener: char,
    exit: Option<char>,
}

impl DeepView for Frame {
    type V = FrameView;

    closed spec fn deep_view(&self) -> FrameView {
        FrameView { tokens: self.tokens.deep_view(), opener: self.opener, exit: self.exit }
    }
}

/// What the whole run gives once the innermost open level, which has read
/// `current` so far, gives `inner` for the rest of its text: each open
/// container in turn is closed, put behind the tokens that stand before it,
/// and its own level is read on behind its closing bracket.
spec fn finish(s: Seq<char>, frames: Seq<FrameView>, current: Seq<TokenView>, inner: Lexed) -> Lexed
    decreases frames.len(),
{
    match inner {
        Err(e) => Err(e),
        Ok((rest, at)) => if frames.len() == 0 {
            Ok((current + rest, at))
        } else {
            let top = frames.last();
            finish(
                s,
                frames.drop_last(),
                top.tokens.push(container(top.opener, current + rest)),
                lex(s, at + 1, top.exit),
            )
        },
    }
}

/// A token read on the innermost level may as well be counted among the
/// tokens read so far.
proof fn lemma_finish_with_first(
    s: Seq<char>,
    frames: Seq<FrameView>,
    current: Seq<TokenView>,
    first: TokenView,
    rest: Lexed,
)
    ensures
        finish(s, frames, current, with_first(first, rest)) == finish(
            s,
            frames,
            current.push(first),
            rest,
        ),
{
    if let Ok((tokens, at)) = rest {
        assert(current + (seq![first] + tokens) =~= current.push(first) + tokens);
    }
}

/// The token for a mark.
fn mark_token(c: char) -> (token: Token)
    requires
        is_mark(c),
    ensures
        token.deep_view() == mark(c),
{
    if c == ',' {
        Token::Commas
    } else if c == '?' {
        Token::QuestionMark
    } else {
        Token::ExclamationMark
    }
}

/// The container token that `opener` starts, around `inner`.
fn container_token(opener: char, inner: Vec<Token>) -> (token: Token)
    ensures
        token.deep_view() == container(opener, inner.deep_view()),
{
    let token = if opener == '(' {
        Token::Parenthesis(inner)
    } else if opener == '{' {
        Token::Curly(inner)
    } else {
        Token::Square(inner)
    };
    proof {
        lemma_container_view(token);
    }
    token
}

/// Where the identifier ends that holds `chars[from - 1]`.
fn word_end(chars: &Vec<char>, from: usize, exit: Option<char>) -> (end: usize)
    requires
        from <= chars.len(),
    ensures
        end == from + word_length(chars@, from as int, exit),
        end <= chars.len(),
{
    let mut end: usize = from;
    while end < chars.len() && !ends_word(chars[end], exit)
        invariant
            from <= end <= chars.len(),
            from + word_length(chars@, from as int, exit) == end + word_length(
                chars@,
                end as int,
                exit,
            ),
        decreases chars.len() - end,
    {
        end += 1;
    }
    end
}

/// Where the next `"` stands at or behind `from`; the length of the text
/// where there is none.
fn quote_end(chars: &Vec<char>, from: usize) -> (end: usize)
    requires
        from <= chars.len(),
    ensures
        end == from + quoted_length(chars@, from as int),
        end <= chars.len(),
{
    let mut end: usize = from;
    while end < chars.len() && chars[end] != '"'
        invariant
            from <= end <= chars.len(),
            from + quoted_length(chars@, from as int) == end + quoted_length(chars@, end as int),
        decreases chars.len() - end,
    {
        end += 1;
    }
    end
}

/// The value of what `internal_parse` returns.
pub open spec fn lexed_view(result: EbdbResult<(Vec<Token>, usize)>) -> Lexed {
    match result {
        Ok((tokens, used)) => Ok((tokens.deep_view(), used as int)),
        Err(e) => Err(e.deep_view()),
    }
}

/// A text to tokenize, and the character at which to stop.
pub struct Tokenizer<'tokenizer> {
    string: &'tokenizer str,
    exit_character: Option<char>,
}

impl<'tokenizer> Tokenizer<'tokenizer> {
    /// The text that this tokenizer reads.
    pub closed spec fn text(&self) -> Seq<char> {
        self.string@
    }

    /// The character that this tokenizer stops at.
    pub closed spec fn exit(&self) -> Option<char> {
        self.exit_character
    }

    /// A tokenizer for a whole text.
    pub fn new(string: &'tokenizer str) -> (tokenizer: Self)
        ensures
            tokenizer.text() == string@,
            tokenizer.exit() is None,
    {
        Self { string, exit_character: None }
    }

    /// A tokenizer for the inside of a container: it reads `string` up to
    /// the first `character` that is on its own level.
    pub fn from_slice(string: &'tokenizer str, character: char) -> (tokenizer: Self)
        ensures
            tokenizer.text() == string@,
            tokenizer.exit() == Some(character),
    {
        Self { string, exit_character: Some(character) }
    }

    /// The tokens of the text.
    pub fn parse(self) -> (result: EbdbResult<Vec<Token>>)
        ensures
            result_view(result) == lexed_tokens(lex(self.text(), 0, self.exit())),
    {
        match self.internal_parse() {
            Ok((tokens, _)) => Ok(tokens),
            Err(e) => Err(e),
        }
    }

    /// The tokens of the text and the number of characters read: the length
    /// of the text at the top level, else the place of the character that
    /// ended the level.
    ///
    /// Open containers are kept on a stack of their own, so the depth of
    /// nesting in the text costs memory, not call depth.
    pub fn internal_parse(self) -> (result: EbdbResult<(Vec<Token>, usize)>)
        ensures
            lexed_view(result) == lex(self.text(), 0, self.exit()),
    {
        let chars = chars_of(self.string);
        let ghost s = chars@;
        let ghost goal = lex(s, 0, self.exit_character);
        let n = chars.len();
        let mut frames: Vec<Frame> = Vec::new();
        let mut current: Vec<Token> = Vec::new();
        let mut exit = self.exit_character;
        let mut i: usize = 0;
        while i < n
            invariant
                s == chars@,
                n == chars.len(),
                i <= n,
                frames.len() > 0 ==> exit is Some,
                forall|k: int| 0 < k < frames.len() ==> (#[trigger] frames@[k]).exit is Some,
                goal == lex(self.text(), 0, self.exit()),
                goal == finish(
                    s,
                    frames.deep_view(),
                    current.deep_view(),
                    lex(s, i as int, exit),
                ),
            decreases n - i,
        {
            let c = chars[i];
            let ghost old_frames = frames.deep_view();
            let ghost old_current = current.deep_view();
            if is_exit(c, exit) {
                match frames.pop() {
                    None => {
                        return Ok((current, i));
                    },
                    Some(frame) => {
                        let Frame { tokens, opener, exit: outer } = frame;
                        proof {
                            assert(frames.deep_view() =~= old_frames.drop_last());
                        }
                        let closed = container_token(opener, current);
                        current = tokens;
                        let ghost before = current.deep_view();
                        current.push(closed);
                        proof {
                            assert(current.deep_view() =~= before.push(closed.deep_view()));
                        }
                        exit = outer;
                        i += 1;
                    },
                }
            } else if is_blank(c) {
                i += 1;
            } else if is_opener(c) {
                proof {
                    lemma_lex_stops(s, i + 1, Some(closer_of(c)));
                    if let Ok((inner, at)) = lex(s, i + 1, Some(closer_of(c))) {
                        lemma_finish_with_first(
                            s,
                            old_frames,
                            old_current,
                            container(c, inner),
                            lex(s, at + 1, exit),
                        );
                    }
                }
                let frame = Frame { tokens: current, opener: c, exit };
                frames.push(frame);
                proof {
                    assert(frames.deep_view().drop_last() =~= old_frames);
                }
                current = Vec::new();
                exit = Some(closer_of(c));
                i += 1;
            } else if is_closer(c) {
                return Err(
                    match exit {
                        Some(awaited) => EbdbError::WrongClosingContainer(awaited, c),
                        None => EbdbError::ClosingNonExistingContainer(c),
                    },
                );
            } else if is_mark(c) {
                let token = mark_token(c);
                proof {
                    lemma_finish_with_first(
                        s,
                        old_frames,
                        old_current,
                        mark(c),
                        lex(s, i + 1, exit),
                    );
                }
                current.push(token);
                proof {
                    assert(current.deep_view() =~= old_current.push(mark(c)));
                }
                i += 1;
            } else if c == '"' {
                let close = quote_end(&chars, i + 1);
                if close >= n {
                    return Err(EbdbError::MissingCharacter('"'));
                }
                let token = Token::Quoted(string_of(&chars, i + 1, close));
                proof {
                    lemma_finish_with_first(
                        s,
                        old_frames,
                        old_current,
                        token.deep_view(),
                        lex(s, close + 1, exit),
                    );
                }
                current.push(token);
                proof {
                    assert(current.deep_view() =~= old_current.push(token.deep_view()));
                }
                i = close + 1;
            } else {
                let end = word_end(&chars, i + 1, exit);
                let token = Token::Identifier(string_of(&chars, i, end));
                proof {
                    lemma_finish_with_first(
                        s,
                        old_frames,
                        old_current,
                        token.deep_view(),
                        lex(s, end as int, exit),
                    );
                }
                current.push(token);
                proof {
                    assert(current.deep_view() =~= old_current.push(token.deep_view()));
                }
                i = end;
            }
        }
        match exit {
            Some(awaited) => Err(EbdbError::MissingCharacter(awaited)),
            None => {
                Ok((current, n))
            },
        }
    }
}

} // verus!
