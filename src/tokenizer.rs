//! The lexer: comment stripping, longest-match scanning against a fixed
//! keyword table, and the scope pass that tells declarations from references.
use vstd::prelude::*;
use crate::text::{chars_of, string_of};

verus! {

/// Number of entries in the keyword table; entry `j` lexes with kind `j`.
pub const KEYWORD_COUNT: usize = 50;

/// Kind of an identifier as collected by the scanner; after the scope pass it
/// marks a declaration.
pub const RAW_IDENT: i32 = 70;

/// Kind of an identifier that refers to a name declared in an enclosing scope.
pub const REF_IDENT: i32 = 71;

/// Kind of a numeric literal.
pub const LITERAL: i32 = 72;

/// Kind of a punctuation character outside the keyword table.
pub const PUNCT: i32 = 75;

pub const OPEN_BRACE: i32 = 5;

pub const CLOSE_BRACE: i32 = 6;

/// A lexeme: its kind and its text.
#[derive(Debug, Clone, PartialEq, Eq)]
pub struct Token {
    pub token: i32,
    pub value: String,
}

impl View for Token {
    type V = (int, Seq<char>);

    open spec fn view(&self) -> (int, Seq<char>) {
        (self.token as int, self.value@)
    }
}

/// The views of a token sequence.
pub open spec fn token_views(ts: Seq<Token>) -> Seq<(int, Seq<char>)> {
    ts.map_values(|t: Token| t@)
}

/// The keyword table, in the order that gives each entry its kind.
pub open spec fn keywords() -> Seq<Seq<char>> {
    seq![
        seq!['/', '/'], seq!['*', '/'], seq!['/', '*'], seq!['('], seq![')'], seq!['{'],
        seq!['}'], seq!['['], seq![']'], seq![':'], seq![';'], seq![','], seq!['='], seq!['&'],
        seq!['*'], seq!['.', '.'], seq!['l', 'e', 't'], seq!['c', 'o', 'n', 's', 't'],
        seq!['s', 't', 'r', 'u', 'c', 't'], seq!['q', 'b', 'i', 't'], seq!['v', 'o', 'i', 'd'],
        seq!['#'], seq!['m', 'a', 'c', 'r', 'o'], seq!['g', 'a', 't', 'e'], seq!['H', 'A', 'D'],
        seq!['P', 'X'], seq!['P', 'Y'], seq!['P', 'Z'], seq!['C', 'N', 'T'], seq!['C', 'Y'],
        seq!['I', 'D'], seq!['T', 'O', 'F'], seq!['R', 'X'], seq!['R', 'Y'], seq!['R', 'Z'],
        seq!['S'], seq!['T'], seq!['S', 'D', 'G'], seq!['T', 'D', 'G'], seq!['.'], seq!['i', 'f'],
        seq!['f', 'o', 'r'], seq!['i', 'n'], seq!['r', 'e', 't', 'u', 'r', 'n'],
        seq!['b', 'r', 'e', 'a', 'k'], seq!['$'], seq!['q', 'u', 'd', 'i', 't'],
        seq!['M', 'E', 'S'], seq!['T', 'R'], seq!['D', 'P', 'X'],
    ]
}

fn keyword_table() -> (r: Vec<Vec<char>>)
    ensures
        r.len() == KEYWORD_COUNT,
        forall|j: int| 0 <= j < KEYWORD_COUNT ==> (#[trigger] r@[j])@ == keywords()[j],
{
    let r = vec![
        vec!['/', '/'], vec!['*', '/'], vec!['/', '*'], vec!['('], vec![')'], vec!['{'],
        vec!['}'], vec!['['], vec![']'], vec![':'], vec![';'], vec![','], vec!['='], vec!['&'],
        vec!['*'], vec!['.', '.'], vec!['l', 'e', 't'], vec!['c', 'o', 'n', 's', 't'],
        vec!['s', 't', 'r', 'u', 'c', 't'], vec!['q', 'b', 'i', 't'], vec!['v', 'o', 'i', 'd'],
        vec!['#'], vec!['m', 'a', 'c', 'r', 'o'], vec!['g', 'a', 't', 'e'], vec!['H', 'A', 'D'],
        vec!['P', 'X'], vec!['P', 'Y'], vec!['P', 'Z'], vec!['C', 'N', 'T'], vec!['C', 'Y'],
        vec!['I', 'D'], vec!['T', 'O', 'F'], vec!['R', 'X'], vec!['R', 'Y'], vec!['R', 'Z'],
        vec!['S'], vec!['T'], vec!['S', 'D', 'G'], vec!['T', 'D', 'G'], vec!['.'], vec!['i', 'f'],
        vec!['f', 'o', 'r'], vec!['i', 'n'], vec!['r', 'e', 't', 'u', 'r', 'n'],
        vec!['b', 'r', 'e', 'a', 'k'], vec!['$'], vec!['q', 'u', 'd', 'i', 't'],
        vec!['M', 'E', 'S'], vec!['T', 'R'], vec!['D', 'P', 'X'],
    ];
    assert(r@.len() == 50);
    r
}

// ---------------------------------------------------------------- comments

/// Whether `s` holds the two characters `a b` at position `i`.
pub open spec fn pair_at(s: Seq<char>, i: int, a: char, b: char) -> bool {
    0 <= i && i + 1 < s.len() && s[i] == a && s[i + 1] == b
}

/// The text left after removing comments from `s[i..]`, scanning in `mode`:
/// 0 outside comments, 1 inside a line comment, 2 inside a block comment.
/// A line comment keeps its closing newline; an unterminated block comment
/// swallows the rest of the text.
pub open spec fn strip_from(s: Seq<char>, i: int, mode: int) -> Seq<char>
    decreases s.len() - i,
{
    if i < 0 || i >= s.len() {
        seq![]
    } else if mode == 2 {
        if pair_at(s, i, '*', '/') {
            strip_from(s, i + 2, 0)
        } else {
            strip_from(s, i + 1, 2)
        }
    } else if mode == 1 {
        if s[i] == '\n' {
            seq!['\n'] + strip_from(s, i + 1, 0)
        } else {
            strip_from(s, i + 1, 1)
        }
    } else if pair_at(s, i, '/', '*') {
        strip_from(s, i + 2, 2)
    } else if pair_at(s, i, '/', '/') {
        strip_from(s, i + 2, 1)
    } else {
        seq![s[i]] + strip_from(s, i + 1, 0)
    }
}

/// The text `s` without its comments.
pub open spec fn strip_comments(s: Seq<char>) -> Seq<char> {
    strip_from(s, 0, 0)
}

fn has_pair(s: &Vec<char>, i: usize, a: char, b: char) -> (r: bool)
    requires
        i < s.len(),
    ensures
        r == pair_at(s@, i as int, a, b),
{
    i + 1 < s.len() && s[i] == a && s[i + 1] == b
}

/// Removes `// ...` comments (keeping the newline that ends them) and
/// `/* ... */` comments, which do not nest.
pub fn rm_comments(input: &str) -> (r: String)
    ensures
        r@ == strip_comments(input@),
{
    let s = chars_of(input);
    let mut out: Vec<char> = Vec::new();
    let mut mode: u8 = 0;
    let mut i: usize = 0;
    while i < s.len()
        invariant
            i <= s.len(),
            mode <= 2,
            s@ == input@,
            out@ + strip_from(s@, i as int, mode as int) == strip_comments(s@),
        decreases s.len() - i,
    {
        if mode == 2 {
            if has_pair(&s, i, '*', '/') {
                mode = 0;
                i += 2;
            } else {
                i += 1;
            }
        } else if mode == 1 {
            if s[i] == '\n' {
                mode = 0;
                out.push('\n');
                assert(out@ + strip_from(s@, i + 1, 0) =~= out@.drop_last() + (seq!['\n']
                    + strip_from(s@, i + 1, 0)));
            }
            i += 1;
        } else if has_pair(&s, i, '/', '*') {
            mode = 2;
            i += 2;
        } else if has_pair(&s, i, '/', '/') {
            mode = 1;
            i += 2;
        } else {
            let c = s[i];
            out.push(c);
            i += 1;
            assert(out@ + strip_from(s@, i as int, 0) =~= out@.drop_last() + (seq![c]
                + strip_from(s@, i as int, 0)));
        }
    }
    assert(out@ + seq![] =~= out@);
    string_of(&out)
}

// ---------------------------------------------------------------- characters

/// Unicode's White_Space property.
pub open spec fn is_space(c: char) -> bool {
    ('\u{9}' <= c && c <= '\u{d}') || c == ' ' || c == '\u{85}' || c == '\u{a0}'
        || c == '\u{1680}' || ('\u{2000}' <= c && c <= '\u{200a}') || c == '\u{2028}'
        || c == '\u{2029}' || c == '\u{202f}' || c == '\u{205f}' || c == '\u{3000}'
}

/// Punctuation that ends an identifier.
pub open spec fn is_break_punct(c: char) -> bool {
    c == '!' || c == '@' || c == '#' || c == '$' || c == '%' || c == '^' || c == '&' || c == '*'
        || c == '(' || c == ')' || c == '-' || c == '=' || c == '+' || c == '[' || c == ']'
        || c == '{' || c == '}' || c == '|' || c == ';' || c == ':' || c == '\'' || c == '"'
        || c == ',' || c == '.' || c == '<' || c == '>' || c == '?' || c == '/'
}

/// Characters after which any keyword is accepted.
pub open spec fn is_follow(c: char) -> bool {
    c == '(' || c == '[' || c == ';' || c == ' '
}

/// One-character keywords that are accepted whatever follows them.
pub open spec fn is_single_punct(c: char) -> bool {
    c == '(' || c == ')' || c == '{' || c == '}' || c == '[' || c == ']' || c == ':' || c == ';'
        || c == ',' || c == '&' || c == '*' || c == '$'
}

fn space(c: char) -> (r: bool)
    ensures
        r == is_space(c),
{
    ('\u{9}' <= c && c <= '\u{d}') || c == ' ' || c == '\u{85}' || c == '\u{a0}'
        || c == '\u{1680}' || ('\u{2000}' <= c && c <= '\u{200a}') || c == '\u{2028}'
        || c == '\u{2029}' || c == '\u{202f}' || c == '\u{205f}' || c == '\u{3000}'
}

fn break_punct(c: char) -> (r: bool)
    ensures
        r == is_break_punct(c),
{
    c == '!' || c == '@' || c == '#' || c == '$' || c == '%' || c == '^' || c == '&' || c == '*'
        || c == '(' || c == ')' || c == '-' || c == '=' || c == '+' || c == '[' || c == ']'
        || c == '{' || c == '}' || c == '|' || c == ';' || c == ':' || c == '\'' || c == '"'
        || c == ',' || c == '.' || c == '<' || c == '>' || c == '?' || c == '/'
}

// ---------------------------------------------------------------- scanning

/// Keyword `j` occurs in `s` at position `i`.
pub open spec fn keyword_occurs(s: Seq<char>, i: int, j: int) -> bool {
    &&& 0 <= j < KEYWORD_COUNT
    &&& 0 <= i
    &&& keywords()[j].len() > 0
    &&& i + keywords()[j].len() <= s.len()
    &&& s.subrange(i, i + keywords()[j].len()) == keywords()[j]
}

/// Among keywords `0..n` that occur at `i`, the first of the longest.
pub open spec fn longest_keyword(s: Seq<char>, i: int, n: int) -> Option<int>
    decreases n,
{
    if n <= 0 {
        None
    } else {
        let prev = longest_keyword(s, i, n - 1);
        if keyword_occurs(s, i, n - 1) && (prev is None || keywords()[n - 1].len()
            > keywords()[prev->0].len()) {
            Some(n - 1)
        } else {
            prev
        }
    }
}

/// A keyword found at `i` stands as a token: it is followed by one of
/// `( [ ; space`, or is a one-character punctuation keyword, or is `..`.
pub open spec fn keyword_accepted(s: Seq<char>, i: int, j: int) -> bool {
    let k = keywords()[j];
    (i + k.len() < s.len() && is_follow(s[i + k.len()])) || (k.len() == 1 && is_single_punct(
        s[i],
    )) || k == seq!['.', '.']
}

/// The identifier collected so far, as a token sequence of at most one token.
pub open spec fn flush(cur: Seq<char>) -> Seq<(int, Seq<char>)> {
    if cur.len() == 0 {
        seq![]
    } else {
        seq![(RAW_IDENT as int, cur)]
    }
}

/// The tokens of `s[i..]`, where `cur` is the identifier being collected.
pub open spec fn lex_from(s: Seq<char>, i: int, cur: Seq<char>) -> Seq<(int, Seq<char>)>
    decreases s.len() - i,
{
    if i < 0 || i >= s.len() {
        flush(cur)
    } else {
        let m = longest_keyword(s, i, KEYWORD_COUNT as int);
        if m is Some && keyword_occurs(s, i, m->0) && keyword_accepted(s, i, m->0) {
            let k = keywords()[m->0];
            flush(cur) + seq![(m->0, k)] + lex_from(s, i + k.len(), seq![])
        } else if is_space(s[i]) {
            flush(cur) + lex_from(s, i + 1, seq![])
        } else if is_break_punct(s[i]) {
            flush(cur) + seq![(PUNCT as int, seq![s[i]])] + lex_from(s, i + 1, seq![])
        } else {
            lex_from(s, i + 1, cur.push(s[i]))
        }
    }
}

/// The tokens of a comment-free text.
pub open spec fn lex(s: Seq<char>) -> Seq<(int, Seq<char>)> {
    lex_from(s, 0, seq![])
}

proof fn lemma_longest_occurs(s: Seq<char>, i: int, n: int)
    ensures
        longest_keyword(s, i, n) is Some ==> keyword_occurs(s, i, longest_keyword(s, i, n)->0),
    decreases n,
{
    if n > 0 {
        lemma_longest_occurs(s, i, n - 1);
    }
}

fn occurs_at(s: &Vec<char>, i: usize, k: &Vec<char>) -> (r: bool)
    requires
        i < s.len(),
    ensures
        r == (k.len() > 0 && i + k.len() <= s.len() && s@.subrange(i as int, i + k.len())
            == k@),
{
    if k.len() == 0 || k.len() > s.len() - i {
        return false;
    }
    let mut t: usize = 0;
    while t < k.len()
        invariant
            t <= k.len(),
            i + k.len() <= s.len(),
            forall|u: int| 0 <= u < t ==> s@[i + u] == k@[u],
        decreases k.len() - t,
    {
        if s[i + t] != k[t] {
            assert(s@.subrange(i as int, i + k.len())[t as int] != k@[t as int]);
            return false;
        }
        t += 1;
    }
    assert(s@.subrange(i as int, i + k.len()) =~= k@);
    true
}

fn find_keyword(s: &Vec<char>, i: usize, table: &Vec<Vec<char>>) -> (r: Option<usize>)
    requires
        i < s.len(),
        table.len() == KEYWORD_COUNT,
        forall|j: int| 0 <= j < KEYWORD_COUNT ==> (#[trigger] table@[j])@ == keywords()[j],
    ensures
        r matches Some(j) ==> longest_keyword(s@, i as int, KEYWORD_COUNT as int) == Some(
            j as int,
        ),
        r is None ==> longest_keyword(s@, i as int, KEYWORD_COUNT as int) is None,
{
    let mut best: Option<usize> = None;
    let mut j: usize = 0;
    while j < KEYWORD_COUNT
        invariant
            j <= KEYWORD_COUNT,
            i < s.len(),
            table.len() == KEYWORD_COUNT,
            forall|u: int| 0 <= u < KEYWORD_COUNT ==> (#[trigger] table@[u])@ == keywords()[u],
            best matches Some(b) ==> b < j && longest_keyword(s@, i as int, j as int) == Some(
                b as int,
            ),
            best is None ==> longest_keyword(s@, i as int, j as int) is None,
        decreases KEYWORD_COUNT - j,
    {
        let hit = occurs_at(s, i, &table[j]);
        proof {
            assert(table@[j as int]@ == keywords()[j as int]);
        }
        match best {
            None => {
                if hit {
                    best = Some(j);
                }
            },
            Some(b) => {
                proof {
                    assert(table@[b as int]@ == keywords()[b as int]);
                }
                if hit && table[j].len() > table[b].len() {
                    best = Some(j);
                }
            },
        }
        j += 1;
    }
    best
}

fn keyword_stands(s: &Vec<char>, i: usize, k: &Vec<char>) -> (r: bool)
    requires
        i < s.len(),
        i + k.len() <= s.len(),
    ensures
        r == ((i + k.len() < s.len() && is_follow(s@[i + k.len()])) || (k.len() == 1
            && is_single_punct(s@[i as int])) || k@ == seq!['.', '.']),
{
    let n = k.len();
    if i + n < s.len() {
        let c = s[i + n];
        if c == '(' || c == '[' || c == ';' || c == ' ' {
            return true;
        }
    }
    if n == 1 {
        let c = s[i];
        if c == '(' || c == ')' || c == '{' || c == '}' || c == '[' || c == ']' || c == ':' || c
            == ';' || c == ',' || c == '&' || c == '*' || c == '$' {
            return true;
        }
    }
    if n == 2 && k[0] == '.' && k[1] == '.' {
        assert(k@ =~= seq!['.', '.']);
        return true;
    }
    assert(n == 2 ==> k@ == seq![k@[0], k@[1]]);
    false
}

proof fn lemma_flush_push(out: Seq<Token>, cur: Seq<char>, t: Token)
    requires
        cur.len() > 0,
        t@ == (RAW_IDENT as int, cur),
    ensures
        token_views(out.push(t)) == token_views(out) + flush(cur),
{
    assert(token_views(out.push(t)) =~= token_views(out) + flush(cur));
}

fn flush_into(out: &mut Vec<Token>, cur: &mut Vec<char>)
    ensures
        token_views(final(out)@) == token_views(old(out)@) + flush(old(cur)@),
        final(cur)@ == Seq::<char>::empty(),
{
    if cur.len() > 0 {
        let t = Token { token: RAW_IDENT, value: string_of(cur) };
        proof {
            lemma_flush_push(out@, cur@, t);
        }
        out.push(t);
        *cur = Vec::new();
    } else {
        assert(token_views(out@) + flush(cur@) =~= token_views(out@));
        *cur = Vec::new();
    }
}

/// Splits source text into tokens: comments are removed, keywords are found
/// by longest match, identifiers get the raw identifier kind, whitespace is
/// dropped and other punctuation becomes a punctuation token.
pub fn tokenize(input: &str) -> (r: Vec<Token>)
    ensures
        token_views(r@) == lex(strip_comments(input@)),
{
    let stripped = rm_comments(input);
    let s = chars_of(stripped.as_str());
    let table = keyword_table();
    let mut out: Vec<Token> = Vec::new();
    let mut cur: Vec<char> = Vec::new();
    let mut i: usize = 0;
    while i < s.len()
        invariant
            i <= s.len(),
            s@ == strip_comments(input@),
            table.len() == KEYWORD_COUNT,
            forall|j: int| 0 <= j < KEYWORD_COUNT ==> (#[trigger] table@[j])@ == keywords()[j],
            token_views(out@) + lex_from(s@, i as int, cur@) == lex(s@),
        decreases s.len() - i,
    {
        let ghost before = token_views(out@);
        let ghost cur0 = cur@;
        let found = find_keyword(&s, i, &table);
        proof {
            lemma_longest_occurs(s@, i as int, KEYWORD_COUNT as int);
        }
        let mut taken = false;
        if let Some(j) = found {
            proof {
                assert(table@[j as int]@ == keywords()[j as int]);
            }
            if keyword_stands(&s, i, &table[j]) {
                flush_into(&mut out, &mut cur);
                let t = Token { token: j as i32, value: string_of(&table[j]) };
                out.push(t);
                i += table[j].len();
                taken = true;
                proof {
                    assert(token_views(out@) =~= before + flush(cur0) + seq![(j as int, keywords()[j as int])]);
                }
            }
        }
        if !taken {
            let c = s[i];
            if space(c) {
                flush_into(&mut out, &mut cur);
                i += 1;
            } else if break_punct(c) {
                flush_into(&mut out, &mut cur);
                let mut one: Vec<char> = Vec::new();
                one.push(c);
                let t = Token { token: PUNCT, value: string_of(&one) };
                out.push(t);
                i += 1;
                proof {
                    assert(one@ =~= seq![c]);
                    assert(token_views(out@) =~= before + flush(cur0) + seq![(PUNCT as int, seq![c])]);
                }
            } else {
                cur.push(c);
                i += 1;
            }
        }
    }
    flush_into(&mut out, &mut cur);
    assert(token_views(out@) + lex_from(s@, i as int, cur@) =~= token_views(out@));
    out
}

// ---------------------------------------------------------------- numbers

pub open spec fn is_digit(c: char) -> bool {
    '0' <= c && c <= '9'
}

/// The first position at or after `i` that does not hold a decimal digit.
pub open spec fn digits_end(s: Seq<char>, i: int) -> int
    decreases s.len() - i,
{
    if 0 <= i < s.len() && is_digit(s[i]) {
        digits_end(s, i + 1)
    } else {
        i
    }
}

/// The upper-case form of the letters of the special float words.
pub open spec fn upper(c: char) -> char {
    if c == 'i' {
        'I'
    } else if c == 'n' {
        'N'
    } else if c == 'f' {
        'F'
    } else if c == 't' {
        'T'
    } else if c == 'y' {
        'Y'
    } else if c == 'a' {
        'A'
    } else {
        c
    }
}

fn to_upper(c: char) -> (r: char)
    ensures
        r == upper(c),
{
    if c == 'i' {
        'I'
    } else if c == 'n' {
        'N'
    } else if c == 'f' {
        'F'
    } else if c == 't' {
        'T'
    } else if c == 'y' {
        'Y'
    } else if c == 'a' {
        'A'
    } else {
        c
    }
}

/// `s[i..]` spells the lower-case word `w`, ignoring case.
pub open spec fn spells_from(s: Seq<char>, i: int, w: Seq<char>) -> bool {
    &&& s.len() - i == w.len()
    &&& forall|k: int|
        0 <= k < w.len() ==> (s[i + k] == #[trigger] w[k] || s[i + k] == upper(w[k]))
}

/// An optional sign, then at least one digit, ending the text.
pub open spec fn exponent_digits(s: Seq<char>, q: int) -> bool {
    let r = if q < s.len() && (s[q] == '+' || s[q] == '-') {
        q + 1
    } else {
        q
    };
    r < s.len() && digits_end(s, r) == s.len()
}

/// `s[p..]` is empty or an exponent `e` / `E` followed by signed digits.
pub open spec fn exponent_ok(s: Seq<char>, p: int) -> bool {
    p == s.len() || (p < s.len() && (s[p] == 'e' || s[p] == 'E') && exponent_digits(s, p + 1))
}

/// `s[st..]` is a decimal number: digits with an optional fraction, at least
/// one digit in all, then an optional exponent.
pub open spec fn decimal_from(s: Seq<char>, st: int) -> bool {
    let a = digits_end(s, st);
    if a < s.len() && s[a] == '.' {
        let c = digits_end(s, a + 1);
        (a > st || c > a + 1) && exponent_ok(s, c)
    } else {
        a > st && exponent_ok(s, a)
    }
}

/// The text is accepted by the standard library's floating-point parser:
/// an optional sign, then `inf`, `infinity`, `nan` (in any case) or a
/// decimal number.
pub open spec fn float_syntax(s: Seq<char>) -> bool {
    let st: int = if s.len() > 0 && (s[0] == '+' || s[0] == '-') {
        1
    } else {
        0
    };
    spells_from(s, st, seq!['i', 'n', 'f']) || spells_from(
        s,
        st,
        seq!['i', 'n', 'f', 'i', 'n', 'i', 't', 'y'],
    ) || spells_from(s, st, seq!['n', 'a', 'n']) || decimal_from(s, st)
}

pub(crate) fn skip_digits(s: &Vec<char>, i: usize) -> (r: usize)
    requires
        i <= s.len(),
    ensures
        r as int == digits_end(s@, i as int),
        i <= r <= s.len(),
{
    let mut j = i;
    while j < s.len() && '0' <= s[j] && s[j] <= '9'
        invariant
            i <= j <= s.len(),
            digits_end(s@, j as int) == digits_end(s@, i as int),
        decreases s.len() - j,
    {
        j += 1;
    }
    j
}

fn spells(s: &Vec<char>, i: usize, w: &Vec<char>) -> (r: bool)
    requires
        i <= s.len(),
    ensures
        r == spells_from(s@, i as int, w@),
{
    if s.len() - i != w.len() {
        return false;
    }
    let mut k: usize = 0;
    while k < w.len()
        invariant
            k <= w.len(),
            s.len() - i == w.len(),
            forall|u: int|
                0 <= u < k ==> (s@[i + u] == #[trigger] w@[u] || s@[i + u] == upper(w@[u])),
        decreases w.len() - k,
    {
        let a = s[i + k];
        let b = w[k];
        if !(a == b || a == to_upper(b)) {
            return false;
        }
        k += 1;
    }
    true
}

fn exponent_fits(s: &Vec<char>, p: usize) -> (r: bool)
    requires
        p <= s.len(),
    ensures
        r == exponent_ok(s@, p as int),
{
    if p == s.len() {
        return true;
    }
    if s[p] != 'e' && s[p] != 'E' {
        return false;
    }
    let mut q = p + 1;
    if q < s.len() && (s[q] == '+' || s[q] == '-') {
        q += 1;
    }
    q < s.len() && skip_digits(s, q) == s.len()
}

/// Whether the text reads as a number, by the rules of the standard
/// library's floating-point parser.
pub fn is_num(s: String) -> (r: bool)
    ensures
        r == float_syntax(s@),
{
    let v = chars_of(s.as_str());
    let st: usize = if v.len() > 0 && (v[0] == '+' || v[0] == '-') {
        1
    } else {
        0
    };
    if spells(&v, st, &vec!['i', 'n', 'f']) || spells(
        &v,
        st,
        &vec!['i', 'n', 'f', 'i', 'n', 'i', 't', 'y'],
    ) || spells(&v, st, &vec!['n', 'a', 'n']) {
        return true;
    }
    let a = skip_digits(&v, st);
    if a < v.len() && v[a] == '.' {
        let c = skip_digits(&v, a + 1);
        (a > st || c > a + 1) && exponent_fits(&v, c)
    } else {
        a > st && exponent_fits(&v, a)
    }
}

// ---------------------------------------------------------------- scopes

/// Some entry of the scope set carries `name`, at any depth.
pub open spec fn declared(seen: Seq<(int, Seq<char>)>, name: Seq<char>) -> bool {
    exists|k: int| 0 <= k < seen.len() && (#[trigger] seen[k]).1 == name
}

/// The entries of `seen` whose depth is at most `d`, in order.
pub open spec fn keep_within(seen: Seq<(int, Seq<char>)>, d: int) -> Seq<(int, Seq<char>)>
    decreases seen.len(),
{
    if seen.len() == 0 {
        seq![]
    } else if seen.last().0 <= d {
        keep_within(seen.drop_last(), d).push(seen.last())
    } else {
        keep_within(seen.drop_last(), d)
    }
}

/// The scope pass over `ts`, at brace depth `depth`, with `seen` the names
/// declared in the scopes still open. `{` opens a scope, `}` closes one and
/// forgets the names declared deeper. A raw identifier becomes a reference
/// when its name is declared, a literal when it reads as a number, and stays
/// a declaration otherwise, entering the set at the current depth.
pub open spec fn scope_pass_from(ts: Seq<(int, Seq<char>)>, depth: int, seen: Seq<(int, Seq<char>)>) -> Seq<(int, Seq<char>)>
    decreases ts.len(),
{
    if ts.len() == 0 {
        seq![]
    } else {
        let t = ts[0];
        let rest = ts.drop_first();
        if t.0 == OPEN_BRACE {
            seq![t] + scope_pass_from(rest, depth + 1, seen)
        } else if t.0 == CLOSE_BRACE {
            let d = if depth > 0 {
                depth - 1
            } else {
                0
            };
            seq![t] + scope_pass_from(rest, d, keep_within(seen, d))
        } else if t.0 == RAW_IDENT {
            if declared(seen, t.1) {
                seq![(REF_IDENT as int, t.1)] + scope_pass_from(rest, depth, seen)
            } else if float_syntax(t.1) {
                seq![(LITERAL as int, t.1)] + scope_pass_from(rest, depth, seen)
            } else {
                seq![t] + scope_pass_from(rest, depth, seen.push((depth, t.1)))
            }
        } else {
            seq![t] + scope_pass_from(rest, depth, seen)
        }
    }
}

/// The scope pass over a whole token sequence.
pub open spec fn scope_pass(ts: Seq<(int, Seq<char>)>) -> Seq<(int, Seq<char>)> {
    scope_pass_from(ts, 0, seq![])
}

proof fn lemma_scope_pass_idempotent_from(ts: Seq<(int, Seq<char>)>, depth: int, seen: Seq<(int, Seq<char>)>)
    ensures
        scope_pass_from(scope_pass_from(ts, depth, seen), depth, seen) == scope_pass_from(
            ts,
            depth,
            seen,
        ),
    decreases ts.len(),
{
    if ts.len() > 0 {
        let t = ts[0];
        let rest = ts.drop_first();
        let r = scope_pass_from(ts, depth, seen);
        if t.0 == OPEN_BRACE {
            lemma_scope_pass_idempotent_from(rest, depth + 1, seen);
            assert(r.drop_first() =~= scope_pass_from(rest, depth + 1, seen));
        } else if t.0 == CLOSE_BRACE {
            let d = if depth > 0 {
                depth - 1
            } else {
                0
            };
            lemma_scope_pass_idempotent_from(rest, d, keep_within(seen, d));
            assert(r.drop_first() =~= scope_pass_from(rest, d, keep_within(seen, d)));
        } else if t.0 == RAW_IDENT {
            if declared(seen, t.1) {
                lemma_scope_pass_idempotent_from(rest, depth, seen);
                assert(r.drop_first() =~= scope_pass_from(rest, depth, seen));
            } else if float_syntax(t.1) {
                lemma_scope_pass_idempotent_from(rest, depth, seen);
                assert(r.drop_first() =~= scope_pass_from(rest, depth, seen));
            } else {
                lemma_scope_pass_idempotent_from(rest, depth, seen.push((depth, t.1)));
                assert(r.drop_first() =~= scope_pass_from(rest, depth, seen.push((depth, t.1))));
            }
        } else {
            lemma_scope_pass_idempotent_from(rest, depth, seen);
            assert(r.drop_first() =~= scope_pass_from(rest, depth, seen));
        }
        assert(r.len() > 0 && r[0] == (if t.0 == RAW_IDENT && declared(seen, t.1) {
            (REF_IDENT as int, t.1)
        } else if t.0 == RAW_IDENT && float_syntax(t.1) {
            (LITERAL as int, t.1)
        } else {
            t
        }));
        assert(scope_pass_from(r, depth, seen) =~= scope_pass_from(ts, depth, seen));
    }
}

/// Running the scope pass on its own output changes no token: the pass is
/// idempotent.
pub proof fn scope_pass_idempotent(ts: Seq<(int, Seq<char>)>)
    ensures
        scope_pass(scope_pass(ts)) == scope_pass(ts),
{
    lemma_scope_pass_idempotent_from(ts, 0, seq![]);
}

/// The scope set as the specification sees it.
pub open spec fn scope_view(v: Seq<(usize, String)>) -> Seq<(int, Seq<char>)> {
    v.map_values(|p: (usize, String)| (p.0 as int, p.1@))
}

fn is_declared(seen: &Vec<(usize, String)>, name: &String) -> (r: bool)
    ensures
        r == declared(scope_view(seen@), name@),
{
    let mut k: usize = 0;
    while k < seen.len()
        invariant
            k <= seen.len(),
            forall|u: int| 0 <= u < k ==> (#[trigger] seen@[u]).1@ != name@,
        decreases seen.len() - k,
    {
        if seen[k].1 == *name {
            assert(scope_view(seen@)[k as int].1 == name@);
            return true;
        }
        k += 1;
    }
    assert forall|u: int| 0 <= u < scope_view(seen@).len() implies (#[trigger] scope_view(
        seen@,
    )[u]).1 != name@ by {
        assert(seen@[u].1@ != name@);
    }
    false
}

fn close_scope(seen: &Vec<(usize, String)>, d: usize) -> (r: Vec<(usize, String)>)
    ensures
        scope_view(r@) == keep_within(scope_view(seen@), d as int),
{
    let mut out: Vec<(usize, String)> = Vec::new();
    let mut k: usize = 0;
    while k < seen.len()
        invariant
            k <= seen.len(),
            scope_view(out@) == keep_within(scope_view(seen@.subrange(0, k as int)), d as int),
        decreases seen.len() - k,
    {
        let ghost before = out@;
        assert(scope_view(seen@.subrange(0, k + 1)).drop_last() =~= scope_view(
            seen@.subrange(0, k as int),
        ));
        if seen[k].0 <= d {
            let e = (seen[k].0, seen[k].1.clone());
            out.push(e);
            assert(scope_view(out@) =~= scope_view(before).push((e.0 as int, e.1@)));
        }
        k += 1;
    }
    assert(seen@.subrange(0, seen.len() as int) =~= seen@);
    out
}

fn copy_token(t: &Token) -> (r: Token)
    ensures
        r@ == t@,
{
    Token { token: t.token, value: t.value.clone() }
}

/// Tells declarations from references: see `scope_pass`.
pub fn filter50s(tokens: Vec<Token>) -> (r: Vec<Token>)
    ensures
        token_views(r@) == scope_pass(token_views(tokens@)),
{
    let ghost all = token_views(tokens@);
    let mut out: Vec<Token> = Vec::new();
    let mut seen: Vec<(usize, String)> = Vec::new();
    let mut depth: usize = 0;
    let mut i: usize = 0;
    assert(all.subrange(0, all.len() as int) =~= all);
    assert(scope_view(seen@) =~= seq![]);
    assert(token_views(out@) =~= seq![]);
    while i < tokens.len()
        invariant
            i <= tokens.len(),
            depth <= i,
            all == token_views(tokens@),
            token_views(out@) + scope_pass_from(all.subrange(i as int, all.len() as int), depth as int, scope_view(seen@)) == scope_pass(all),
        decreases tokens.len() - i,
    {
        let ghost rest = all.subrange(i as int, all.len() as int);
        assert(rest[0] == tokens@[i as int]@);
        assert(rest.drop_first() =~= all.subrange(i + 1, all.len() as int));
        let ghost before = token_views(out@);
        let t = &tokens[i];
        let kind = t.token;
        if kind == OPEN_BRACE {
            out.push(copy_token(t));
            depth += 1;
        } else if kind == CLOSE_BRACE {
            out.push(copy_token(t));
            if depth > 0 {
                depth -= 1;
            }
            seen = close_scope(&seen, depth);
        } else if kind == RAW_IDENT {
            if is_declared(&seen, &t.value) {
                out.push(Token { token: REF_IDENT, value: t.value.clone() });
            } else if is_num(t.value.clone()) {
                out.push(Token { token: LITERAL, value: t.value.clone() });
            } else {
                out.push(copy_token(t));
                let ghost sv = scope_view(seen@);
                seen.push((depth, t.value.clone()));
                assert(scope_view(seen@) =~= sv.push((depth as int, t.value@)));
            }
        } else {
            out.push(copy_token(t));
        }
        assert(token_views(out@) =~= before.push(token_views(out@).last()));
        i += 1;
    }
    assert(scope_pass_from(all.subrange(i as int, all.len() as int), depth as int, scope_view(seen@)) =~= seq![]);
    assert(token_views(out@) =~= scope_pass(all));
    out
}

/// A raw identifier or a reference whose text reads as a number becomes a
/// literal.
pub open spec fn force_literal(t: (int, Seq<char>)) -> (int, Seq<char>) {
    if float_syntax(t.1) && (t.0 == RAW_IDENT || t.0 == REF_IDENT) {
        (LITERAL as int, t.1)
    } else {
        t
    }
}

/// Applies `force_literal` to every token.
pub fn filter_all(tokens: Vec<Token>) -> (r: Vec<Token>)
    ensures
        token_views(r@) == token_views(tokens@).map_values(|t: (int, Seq<char>)| force_literal(t)),
{
    let mut out: Vec<Token> = Vec::new();
    let mut i: usize = 0;
    while i < tokens.len()
        invariant
            i <= tokens.len(),
            out.len() == i,
            forall|k: int| 0 <= k < i ==> (#[trigger] out@[k])@ == force_literal(tokens@[k]@),
        decreases tokens.len() - i,
    {
        let t = &tokens[i];
        let num = is_num(t.value.clone());
        if num && (t.token == RAW_IDENT || t.token == REF_IDENT) {
            out.push(Token { token: LITERAL, value: t.value.clone() });
        } else {
            out.push(copy_token(t));
        }
        i += 1;
    }
    assert(token_views(out@) =~= token_views(tokens@).map_values(
        |t: (int, Seq<char>)| force_literal(t),
    ));
    out
}

} // verus!
