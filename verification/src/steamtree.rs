//! The account-tree text format: a tokenizer for the brace-and-quote tree
//! files, and the fold that turns a token run into a name-to-fields table.

use vstd::prelude::*;
use crate::strutil::first_match_from;
use crate::strutil::lemma_first_match_from_valid;
use crate::strutil::find_from;
use crate::strutil::replace_spec;
use crate::strutil::replace_all;
use crate::strutil::str_eq;

verus! {

/// The kinds of token the tree text yields.
#[derive(Debug, Clone, Copy, PartialEq, Eq, Structural)]
pub enum TokenType {
    StructName,
    CloseBracket,
    OpenBracket,
    OpenQuote,
    CloseQuote,
    NameField,
    ValueField,
}

/// One token: its kind and, for names and values, its text.
#[derive(Debug, Clone)]
pub struct Token {
    pub _type: TokenType,
    pub value: Option<String>,
}

/// Mathematical image of a token.
pub ghost struct TokenV {
    pub _type: TokenType,
    pub value: Option<Seq<char>>,
}

impl View for Token {
    type V = TokenV;

    open spec fn view(&self) -> TokenV {
        TokenV {
            _type: self._type,
            value: match self.value {
                Some(s) => Some(s@),
                None => None,
            },
        }
    }
}

/// The views of a token list.
pub open spec fn tok_views(s: Seq<Token>) -> Seq<TokenV> {
    Seq::new(s.len(), |i: int| s[i]@)
}

/// Whether a character is blank: a space, tab, carriage return or line
/// feed.
pub open spec fn is_blank(c: char) -> bool {
    c == ' ' || c == '\t' || c == '\r' || c == '\n'
}

/// The first position at or after `i` holding something other than blank
/// space.
pub open spec fn skip_blank(s: Seq<char>, i: int) -> int
    decreases s.len() - i,
{
    if i < 0 || i >= s.len() {
        s.len() as int
    } else if is_blank(s[i]) {
        skip_blank(s, i + 1)
    } else {
        i
    }
}

/// The position just after the last non-blank character before `j`.
pub open spec fn rskip_blank(s: Seq<char>, j: int) -> int
    decreases j,
{
    if j <= 0 {
        0
    } else if is_blank(s[j - 1]) {
        rskip_blank(s, j - 1)
    } else {
        j
    }
}

/// A text with its blank ends removed.
pub open spec fn trim_spec(s: Seq<char>) -> Seq<char> {
    let a = skip_blank(s, 0);
    let b = rskip_blank(s, s.len() as int);
    if a >= b {
        Seq::empty()
    } else {
        s.subrange(a, b)
    }
}

/// Removes the blank ends of a text.
pub fn trim_exec(s: &str) -> (r: String)
    ensures
        r@ == trim_spec(s@),
{
    let n = s.unicode_len();
    let mut a: usize = 0;
    while a < n && is_blank_exec(s.get_char(a))
        invariant
            0 <= a <= n,
            n == s@.len(),
            skip_blank(s@, 0) == skip_blank(s@, a as int),
        decreases n - a,
    {
        a = a + 1;
    }
    let mut b: usize = n;
    while b > 0 && is_blank_exec(s.get_char(b - 1))
        invariant
            0 <= b <= n,
            n == s@.len(),
            rskip_blank(s@, n as int) == rskip_blank(s@, b as int),
        decreases b,
    {
        b = b - 1;
    }
    if a >= b {
        proof {
            assert(skip_blank(s@, a as int) == a);
            assert(rskip_blank(s@, b as int) == b);
        }
        String::new()
    } else {
        proof {
            assert(skip_blank(s@, a as int) == a);
            assert(rskip_blank(s@, b as int) == b);
        }
        let sub = s.substring_char(a, b);
        let mut out = String::new();
        out.append(sub);
        out
    }
}

fn is_blank_exec(c: char) -> (r: bool)
    ensures
        r == is_blank(c),
{
    c == ' ' || c == '\t' || c == '\r' || c == '\n'
}

/// How many times a character occurs in a text.
pub open spec fn count_char(s: Seq<char>, c: char) -> int
    decreases s.len(),
{
    if s.len() == 0 {
        0
    } else {
        (if s[0] == c {
            1int
        } else {
            0
        }) + count_char(s.skip(1), c)
    }
}

fn count_char_exec(s: &str, c: char) -> (r: usize)
    ensures
        r == count_char(s@, c),
{
    let n = s.unicode_len();
    let mut cnt: usize = 0;
    let mut i: usize = 0;
    proof {
        assert(s@.skip(0) =~= s@);
    }
    while i < n
        invariant
            0 <= i <= n,
            n == s@.len(),
            cnt <= i,
            count_char(s@, c) == cnt + count_char(s@.skip(i as int), c),
        decreases n - i,
    {
        proof {
            assert(s@.skip(i as int)[0] == s@[i as int]);
            assert(s@.skip(i as int).skip(1) =~= s@.skip(i + 1));
        }
        if s.get_char(i) == c {
            cnt = cnt + 1;
        }
        i = i + 1;
    }
    proof {
        assert(s@.skip(n as int) =~= Seq::<char>::empty());
    }
    cnt
}

/// The tokens of one already-trimmed line.  A lone brace opens or closes a
/// block.  A line opening with a quote and holding exactly two quotes
/// names a block; any other quoted line is a field, its name before the
/// first double tab and its value up to the next one, quotes removed.  A
/// quoted line without a double tab yields its name alone.  Anything else
/// yields nothing.
pub open spec fn line_tokens(l: Seq<char>) -> Seq<TokenV> {
    if l.len() == 1 && l[0] == '{' {
        seq![TokenV { _type: TokenType::OpenBracket, value: None }]
    } else if l.len() == 1 && l[0] == '}' {
        seq![TokenV { _type: TokenType::CloseBracket, value: None }]
    } else if l.len() > 0 && l[0] == '"' {
        if count_char(l, '"') == 2 {
            seq![
                TokenV { _type: TokenType::OpenQuote, value: None },
                TokenV {
                    _type: TokenType::StructName,
                    value: Some(replace_spec(l, seq!['"'], Seq::empty())),
                },
                TokenV { _type: TokenType::CloseQuote, value: None },
            ]
        } else {
            match first_match_from(l, seq!['\t', '\t'], 0) {
                None => seq![
                    TokenV { _type: TokenType::OpenQuote, value: None },
                    TokenV {
                        _type: TokenType::NameField,
                        value: Some(replace_spec(l, seq!['"'], Seq::empty())),
                    },
                    TokenV { _type: TokenType::CloseQuote, value: None },
                ],
                Some(i) => {
                    let name = l.take(i);
                    let after = l.skip(i + 2);
                    let value = match first_match_from(after, seq!['\t', '\t'], 0) {
                        Some(j) => after.take(j),
                        None => after,
                    };
                    seq![
                        TokenV { _type: TokenType::OpenQuote, value: None },
                        TokenV {
                            _type: TokenType::NameField,
                            value: Some(replace_spec(name, seq!['"'], Seq::empty())),
                        },
                        TokenV { _type: TokenType::CloseQuote, value: None },
                        TokenV { _type: TokenType::OpenQuote, value: None },
                        TokenV {
                            _type: TokenType::ValueField,
                            value: Some(replace_spec(value, seq!['"'], Seq::empty())),
                        },
                        TokenV { _type: TokenType::CloseQuote, value: None },
                    ]
                },
            }
        }
    } else {
        Seq::empty()
    }
}

/// The text split at line feeds; a trailing line feed yields a final empty
/// line, as the splitter of the standard library does.
pub open spec fn split_lines(s: Seq<char>) -> Seq<Seq<char>>
    decreases s.len(),
{
    match first_match_from(s, seq!['\n'], 0) {
        None => seq![s],
        Some(i) => {
            proof {
                lemma_first_match_from_valid(s, seq!['\n'], 0);
            }
            seq![s.take(i)] + split_lines(s.skip(i + 1))
        },
    }
}

/// The tokens of a run of lines, each trimmed first.
pub open spec fn tokens_of_lines(ls: Seq<Seq<char>>) -> Seq<TokenV>
    decreases ls.len(),
{
    if ls.len() == 0 {
        Seq::empty()
    } else {
        line_tokens(trim_spec(ls[0])) + tokens_of_lines(ls.skip(1))
    }
}

/// The whole text's tokens.
pub open spec fn tokenize_spec(s: Seq<char>) -> Seq<TokenV> {
    tokens_of_lines(split_lines(s))
}

/// One account tree: the raw text and the tokens parsed from it.
#[derive(Debug, Clone)]
pub struct Tree {
    pub original: String,
    pub tokens: Vec<Token>,
}

impl Tree {
    /// Holds the text, with no tokens yet.
    pub fn new(data: String) -> (r: Tree)
        ensures
            r.original@ == data@,
            r.tokens@.len() == 0,
    {
        Tree { original: data, tokens: Vec::new() }
    }

    /// Tokenizes the text line by line, appending to the token list.
    pub fn parse(&mut self)
        ensures
            final(self).original@ == old(self).original@,
            tok_views(final(self).tokens@) == tok_views(old(self).tokens@) + tokenize_spec(
                old(self).original@,
            ),
    {
        let text = self.original.clone();
        let s = text.as_str();
        let n = s.unicode_len();
        let ghost whole = s@;
        let mut pos: usize = 0;
        let ghost toks0 = tok_views(self.tokens@);
        proof {
            reveal_strlit("\n");
            assert("\n"@ =~= seq!['\n']);
            assert(whole.skip(0) =~= whole);
        }
        loop
            invariant_except_break
                0 <= pos <= n,
                n == whole.len(),
                s@ == whole,
                whole == old(self).original@,
                self.original@ == old(self).original@,
                toks0 == tok_views(old(self).tokens@),
                tok_views(self.tokens@) + tokens_of_lines(split_lines(whole.skip(pos as int)))
                    == toks0 + tokenize_spec(whole),
            ensures
                self.original@ == old(self).original@,
                tok_views(self.tokens@) == toks0 + tokenize_spec(whole),
            decreases n - pos,
        {
            proof {
                reveal_strlit("\n");
                assert("\n"@ =~= seq!['\n']);
            }
            let ghost rest = whole.skip(pos as int);
            let (line_end, next_pos, last) = match find_from(s, "\n", pos) {
                Some(i) => {
                    proof {
                        lemma_first_match_from_valid(whole, seq!['\n'], pos as int);
                    }
                    (i, i + 1, false)
                },
                None => (n, n, true),
            };
            proof {
                if !last {
                    assert(first_match_from(rest, seq!['\n'], 0) == Some(line_end - pos)) by {
                        lemma_first_match_shift(whole, pos as int, line_end as int);
                    }
                    assert(rest.take(line_end - pos) =~= whole.subrange(
                        pos as int,
                        line_end as int,
                    ));
                    assert(rest.skip(line_end - pos + 1) =~= whole.skip(next_pos as int));
                } else {
                    assert(first_match_from(rest, seq!['\n'], 0) is None) by {
                        lemma_first_match_shift_none(whole, pos as int);
                    }
                    assert(rest =~= whole.subrange(pos as int, n as int));
                }
            }
            let raw = s.substring_char(pos, line_end);
            let token = trim_exec(raw);
            self.push_line_tokens(&token);
            proof {
                assert(split_lines(rest) == (if last {
                    seq![rest]
                } else {
                    seq![rest.take(line_end - pos)] + split_lines(rest.skip(line_end - pos + 1))
                }));
            }
            if last {
                proof {
                    assert(seq![rest].skip(1) =~= Seq::<Seq<char>>::empty());
                    assert(seq![rest][0] == rest);
                    assert(tok_views(self.tokens@) + tokens_of_lines(Seq::<Seq<char>>::empty())
                        =~= tok_views(self.tokens@));
                    assert(tokens_of_lines(seq![rest]) =~= line_tokens(trim_spec(rest))
                        + tokens_of_lines(Seq::<Seq<char>>::empty()));
                }
                break ;
            }
            proof {
                let head = rest.take(line_end - pos);
                let tail = split_lines(rest.skip(line_end - pos + 1));
                assert((seq![head] + tail)[0] == head);
                assert((seq![head] + tail).skip(1) =~= tail);
                assert(tokens_of_lines(seq![head] + tail) =~= line_tokens(trim_spec(head))
                    + tokens_of_lines(tail));
            }
            pos = next_pos;
        }
    }

    /// Pushes the tokens of one trimmed line.
    fn push_line_tokens(&mut self, token: &String)
        ensures
            final(self).original@ == old(self).original@,
            tok_views(final(self).tokens@) == tok_views(old(self).tokens@) + line_tokens(token@),
    {
        let ghost prev = tok_views(self.tokens@);
        let t = token.as_str();
        let n = t.unicode_len();
        proof {
            reveal_strlit("\"");
            assert("\""@ =~= seq!['"']);
            reveal_strlit("");
            assert(""@ =~= Seq::<char>::empty());
            reveal_strlit("\t\t");
            assert("\t\t"@ =~= seq!['\t', '\t']);
        }
        if n == 1 && t.get_char(0) == '{' {
            self.tokens.push(Token { _type: TokenType::OpenBracket, value: None });
            proof {
                assert(tok_views(self.tokens@) =~= prev + line_tokens(token@));
            }
            return ;
        }
        if n == 1 && t.get_char(0) == '}' {
            self.tokens.push(Token { _type: TokenType::CloseBracket, value: None });
            proof {
                assert(tok_views(self.tokens@) =~= prev + line_tokens(token@));
            }
            return ;
        }
        if n > 0 && t.get_char(0) == '"' {
            let quotes = count_char_exec(t, '"');
            if quotes == 2 {
                let name = replace_all(t, "\"", "");
                self.tokens.push(Token { _type: TokenType::OpenQuote, value: None });
                self.tokens.push(Token { _type: TokenType::StructName, value: Some(name) });
                self.tokens.push(Token { _type: TokenType::CloseQuote, value: None });
                proof {
                    assert(tok_views(self.tokens@) =~= prev + line_tokens(token@));
                }
                return ;
            }
            match find_from(t, "\t\t", 0) {
                None => {
                    let name = replace_all(t, "\"", "");
                    self.tokens.push(Token { _type: TokenType::OpenQuote, value: None });
                    self.tokens.push(Token { _type: TokenType::NameField, value: Some(name) });
                    self.tokens.push(Token { _type: TokenType::CloseQuote, value: None });
                    proof {
                        assert(tok_views(self.tokens@) =~= prev + line_tokens(token@));
                    }
                },
                Some(i) => {
                    proof {
                        lemma_first_match_from_valid(t@, seq!['\t', '\t'], 0);
                    }
                    let name_raw = t.substring_char(0, i);
                    let after = t.substring_char(i + 2, n);
                    proof {
                        assert(t@.subrange(0, i as int) =~= t@.take(i as int));
                        assert(t@.subrange(i + 2, n as int) =~= t@.skip(i + 2));
                    }
                    let value_raw = match find_from(after, "\t\t", 0) {
                        Some(j) => {
                            proof {
                                lemma_first_match_from_valid(after@, seq!['\t', '\t'], 0);
                            }
                            after.substring_char(0, j)
                        },
                        None => after,
                    };
                    proof {
                        match first_match_from(after@, seq!['\t', '\t'], 0) {
                            Some(j) => {
                                assert(after@.subrange(0, j) =~= after@.take(j));
                            },
                            None => {},
                        }
                    }
                    let name = replace_all(name_raw, "\"", "");
                    let value = replace_all(value_raw, "\"", "");
                    self.tokens.push(Token { _type: TokenType::OpenQuote, value: None });
                    self.tokens.push(Token { _type: TokenType::NameField, value: Some(name) });
                    self.tokens.push(Token { _type: TokenType::CloseQuote, value: None });
                    self.tokens.push(Token { _type: TokenType::OpenQuote, value: None });
                    self.tokens.push(Token { _type: TokenType::ValueField, value: Some(value) });
                    self.tokens.push(Token { _type: TokenType::CloseQuote, value: None });
                    proof {
                        assert(tok_views(self.tokens@) =~= prev + line_tokens(token@));
                    }
                },
            }
            return ;
        }
        proof {
            assert(line_tokens(token@) =~= Seq::<TokenV>::empty());
            assert(tok_views(self.tokens@) =~= prev + line_tokens(token@));
        }
    }

    /// The name the first block-opening quote pair carries: scanning the
    /// tokens, the first opening quote directly followed by a block name
    /// yields that name's text; an opening quote at the very end, or none
    /// followed by a block name, yields nothing.
    pub fn find_original_struct_name(&self) -> (r: Option<String>)
        ensures
            (match r {
                Some(s) => Some(s@),
                None => None,
            }) == fosn_spec(tok_views(self.tokens@), 0),
    {
        let n = self.tokens.len();
        let mut i: usize = 0;
        while i < n
            invariant
                0 <= i <= n,
                n == self.tokens@.len(),
                fosn_spec(tok_views(self.tokens@), 0) == fosn_spec(
                    tok_views(self.tokens@),
                    i as int,
                ),
            decreases n - i,
        {
            if self.tokens[i]._type == TokenType::OpenQuote {
                if i + 1 < n {
                    if self.tokens[i + 1]._type == TokenType::StructName {
                        return match &self.tokens[i + 1].value {
                            Some(v) => Some(v.clone()),
                            None => None,
                        };
                    }
                } else {
                    return None;
                }
            }
            i = i + 1;
        }
        None
    }
}

/// The text of the first block name directly after an opening quote, from
/// position `i` on.
pub open spec fn fosn_spec(toks: Seq<TokenV>, i: int) -> Option<Seq<char>>
    decreases toks.len() - i,
{
    if i < 0 || i >= toks.len() {
        None
    } else if toks[i]._type == TokenType::OpenQuote {
        if i + 1 < toks.len() {
            if toks[i + 1]._type == TokenType::StructName {
                toks[i + 1].value
            } else {
                fosn_spec(toks, i + 1)
            }
        } else {
            None
        }
    } else {
        fosn_spec(toks, i + 1)
    }
}

/// A block-to-fields table: block names with their field pairs.
pub type LoginMap = Vec<(String, Vec<(String, String)>)>;

/// A builder of accounts from a block-to-fields table.
pub trait Convertable: Sized {
    fn generate(map: LoginMap) -> Self;
}

/// The views of a field list.
pub open spec fn field_views(s: Seq<(String, String)>) -> Seq<(Seq<char>, Seq<char>)> {
    Seq::new(s.len(), |i: int| (s[i].0@, s[i].1@))
}

/// The views of a block table.
pub open spec fn map_views(s: Seq<(String, Vec<(String, String)>)>) -> Seq<
    (Seq<char>, Seq<(Seq<char>, Seq<char>)>),
> {
    Seq::new(s.len(), |i: int| (s[i].0@, field_views(s[i].1@)))
}

/// A key bound anew in an association run: an absent key is appended, a
/// present key keeps its place with the new value.
pub open spec fn assoc_upsert<V>(m: Seq<(Seq<char>, V)>, k: Seq<char>, v: V) -> Seq<
    (Seq<char>, V),
> {
    if exists|i: int| 0 <= i < m.len() && (#[trigger] m[i]).0 == k {
        Seq::new(m.len(), |i: int| if m[i].0 == k {
            (k, v)
        } else {
            m[i]
        })
    } else {
        m.push((k, v))
    }
}

/// The first value or block-name token before the next field name or block
/// close, with the position the scan stops at: the position after a
/// consumed token, or the position of the stopping token.
pub open spec fn scan_value(toks: Seq<TokenV>, i: int) -> (Seq<char>, int)
    decreases toks.len() - i,
{
    if i < 0 || i >= toks.len() {
        (Seq::empty(), i)
    } else if toks[i]._type == TokenType::NameField || toks[i]._type == TokenType::CloseBracket {
        (Seq::empty(), i)
    } else if toks[i]._type == TokenType::ValueField || toks[i]._type == TokenType::StructName {
        ((match toks[i].value {
            Some(v) => v,
            None => Seq::empty(),
        }), i + 1)
    } else {
        scan_value(toks, i + 1)
    }
}

/// The fold of a token run into a block table, from position `i` with the
/// current block name, gathered fields, table so far and nesting depth.
/// A block name sets the current name; an opening brace deepens; a closing
/// brace at positive depth records the current name with the fields so
/// far; a field name takes the next value in range; at the end a leftover
/// name records its fields once more.
pub open spec fn build_from(
    toks: Seq<TokenV>,
    i: int,
    name: Seq<char>,
    fields: Seq<(Seq<char>, Seq<char>)>,
    m: Seq<(Seq<char>, Seq<(Seq<char>, Seq<char>)>)>,
    nesting: int,
) -> Seq<(Seq<char>, Seq<(Seq<char>, Seq<char>)>)>
    decreases toks.len() - i, 1int,
{
    if i < 0 || i >= toks.len() {
        if name.len() > 0 {
            assoc_upsert(m, name, fields)
        } else {
            m
        }
    } else {
        match toks[i]._type {
            TokenType::StructName => build_from(
                toks,
                i + 1,
                (match toks[i].value {
                    Some(v) => v,
                    None => Seq::empty(),
                }),
                fields,
                m,
                nesting,
            ),
            TokenType::OpenBracket => build_from(toks, i + 1, name, fields, m, nesting + 1),
            TokenType::CloseBracket => if nesting > 0 {
                build_from(toks, i + 1, name, fields, assoc_upsert(m, name, fields), nesting - 1)
            } else {
                build_from(toks, i + 1, name, fields, m, nesting)
            },
            TokenType::NameField => match toks[i].value {
                Some(fname) => {
                    let sv = scan_value(toks, i + 1);
                    proof {
                        lemma_scan_value_advances(toks, i + 1);
                    }
                    build_from(
                        toks,
                        sv.1,
                        name,
                        assoc_upsert(fields, fname, sv.0),
                        m,
                        nesting,
                    )
                },
                None => build_from(toks, i + 1, name, fields, m, nesting),
            },
            _ => build_from(toks, i + 1, name, fields, m, nesting),
        }
    }
}

/// A value scan never moves backward and stays within the run's bounds
/// plus one.
pub proof fn lemma_scan_value_advances(toks: Seq<TokenV>, i: int)
    ensures
        scan_value(toks, i).1 >= i,
        i <= toks.len() ==> scan_value(toks, i).1 <= toks.len(),
    decreases toks.len() - i,
{
    if !(i < 0 || i >= toks.len()) {
        if !(toks[i]._type == TokenType::NameField || toks[i]._type == TokenType::CloseBracket)
            && !(toks[i]._type == TokenType::ValueField || toks[i]._type
            == TokenType::StructName) {
            lemma_scan_value_advances(toks, i + 1);
        }
    }
}

/// Binds a key in a field list.
fn upsert_fields(m: &mut Vec<(String, String)>, k: String, v: String)
    ensures
        field_views(final(m)@) == assoc_upsert(field_views(old(m)@), k@, v@),
{
    let n = m.len();
    let mut i: usize = 0;
    while i < n
        invariant
            0 <= i <= n,
            n == m@.len(),
            m@ == old(m)@,
            forall|j: int| 0 <= j < i ==> (#[trigger] m@[j]).0@ != k@,
        decreases n - i,
    {
        if str_eq(m[i].0.as_str(), k.as_str()) {
            let ghost prev = field_views(m@);
            let place = i;
            rebuild_fields(m, place, k, v);
            return ;
        }
        i = i + 1;
    }
    let ghost prev = field_views(m@);
    m.push((k, v));
    proof {
        assert(!(exists|j: int| 0 <= j < prev.len() && (#[trigger] prev[j]).0 == k@));
        assert(field_views(m@) =~= assoc_upsert(prev, k@, v@));
    }
}

/// Replaces every pair bound to the key.
fn rebuild_fields(m: &mut Vec<(String, String)>, witness: usize, k: String, v: String)
    requires
        witness < old(m)@.len(),
        old(m)@[witness as int].0@ == k@,
    ensures
        field_views(final(m)@) == assoc_upsert(field_views(old(m)@), k@, v@),
{
    let n = m.len();
    let mut out: Vec<(String, String)> = Vec::new();
    let mut i: usize = 0;
    while i < n
        invariant
            0 <= i <= n,
            n == m@.len(),
            m@ == old(m)@,
            out@.len() == i,
            forall|j: int|
                0 <= j < i ==> field_views(out@)[j] == (if m@[j].0@ == k@ {
                    (k@, v@)
                } else {
                    (m@[j].0@, m@[j].1@)
                }),
        decreases n - i,
    {
        let ghost prev_out = out@;
        if str_eq(m[i].0.as_str(), k.as_str()) {
            out.push((k.clone(), v.clone()));
        } else {
            let pair = (m[i].0.clone(), m[i].1.clone());
            out.push(pair);
        }
        proof {
            assert forall|j: int| 0 <= j < i + 1 implies field_views(out@)[j] == (if m@[j].0@
                == k@ {
                (k@, v@)
            } else {
                (m@[j].0@, m@[j].1@)
            }) by {
                if j < i {
                    assert(out@[j] == prev_out[j]);
                    assert(field_views(prev_out)[j] == (if m@[j].0@ == k@ {
                        (k@, v@)
                    } else {
                        (m@[j].0@, m@[j].1@)
                    }));
                }
            }
        }
        i = i + 1;
    }
    proof {
        assert(exists|j: int|
            0 <= j < field_views(m@).len() && (#[trigger] field_views(m@)[j]).0 == k@) by {
            assert(field_views(m@)[witness as int].0 == k@);
        }
        assert(field_views(out@) =~= assoc_upsert(field_views(m@), k@, v@));
    }
    *m = out;
}

/// Binds a block name in the table.
fn upsert_map(m: &mut LoginMap, k: String, v: Vec<(String, String)>)
    ensures
        map_views(final(m)@) == assoc_upsert(map_views(old(m)@), k@, field_views(v@)),
{
    let n = m.len();
    let mut i: usize = 0;
    while i < n
        invariant
            0 <= i <= n,
            n == m@.len(),
            m@ == old(m)@,
            forall|j: int| 0 <= j < i ==> (#[trigger] m@[j]).0@ != k@,
        decreases n - i,
    {
        if str_eq(m[i].0.as_str(), k.as_str()) {
            let place = i;
            rebuild_map(m, place, k, v);
            return ;
        }
        i = i + 1;
    }
    let ghost prev = map_views(m@);
    m.push((k, v));
    proof {
        assert(!(exists|j: int| 0 <= j < prev.len() && (#[trigger] prev[j]).0 == k@));
        assert(map_views(m@) =~= assoc_upsert(prev, k@, field_views(m@.last().1@)));
    }
}

/// Replaces every table row bound to the block name.
fn rebuild_map(m: &mut LoginMap, witness: usize, k: String, v: Vec<(String, String)>)
    requires
        witness < old(m)@.len(),
        old(m)@[witness as int].0@ == k@,
    ensures
        map_views(final(m)@) == assoc_upsert(map_views(old(m)@), k@, field_views(v@)),
{
    let n = m.len();
    let mut out: LoginMap = Vec::new();
    let mut i: usize = 0;
    while i < n
        invariant
            0 <= i <= n,
            n == m@.len(),
            m@ == old(m)@,
            out@.len() == i,
            forall|j: int|
                0 <= j < i ==> map_views(out@)[j] == (if m@[j].0@ == k@ {
                    (k@, field_views(v@))
                } else {
                    (m@[j].0@, field_views(m@[j].1@))
                }),
        decreases n - i,
    {
        let ghost prev_out = out@;
        if str_eq(m[i].0.as_str(), k.as_str()) {
            out.push((k.clone(), dup_fields(&v)));
        } else {
            let pair = (m[i].0.clone(), dup_fields(&m[i].1));
            out.push(pair);
        }
        proof {
            assert forall|j: int| 0 <= j < i + 1 implies map_views(out@)[j] == (if m@[j].0@
                == k@ {
                (k@, field_views(v@))
            } else {
                (m@[j].0@, field_views(m@[j].1@))
            }) by {
                if j < i {
                    assert(out@[j] == prev_out[j]);
                    assert(map_views(prev_out)[j] == (if m@[j].0@ == k@ {
                        (k@, field_views(v@))
                    } else {
                        (m@[j].0@, field_views(m@[j].1@))
                    }));
                }
            }
        }
        i = i + 1;
    }
    proof {
        assert(exists|j: int| 0 <= j < map_views(m@).len() && (#[trigger] map_views(m@)[j]).0
            == k@) by {
            assert(map_views(m@)[witness as int].0 == k@);
        }
        assert(map_views(out@) =~= assoc_upsert(map_views(m@), k@, field_views(v@)));
    }
    *m = out;
}

/// Copies a field list.
fn dup_fields(v: &Vec<(String, String)>) -> (r: Vec<(String, String)>)
    ensures
        field_views(r@) == field_views(v@),
{
    let n = v.len();
    let mut out: Vec<(String, String)> = Vec::new();
    let mut i: usize = 0;
    while i < n
        invariant
            0 <= i <= n,
            n == v@.len(),
            out@.len() == i,
            forall|j: int| 0 <= j < i ==> field_views(out@)[j] == field_views(v@)[j],
        decreases n - i,
    {
        let pair = (v[i].0.clone(), v[i].1.clone());
        out.push(pair);
        i = i + 1;
    }
    proof {
        assert(field_views(out@) =~= field_views(v@));
    }
    out
}

/// Folds a token run into its block table.
pub fn login_map(tokens: &Vec<Token>) -> (r: LoginMap)
    ensures
        map_views(r@) == build_from(
            tok_views(tokens@),
            0,
            Seq::empty(),
            Seq::empty(),
            Seq::empty(),
            0,
        ),
{
    let ghost toksv = tok_views(tokens@);
    let n = tokens.len();
    let mut m: LoginMap = Vec::new();
    let mut name = String::new();
    let mut fields: Vec<(String, String)> = Vec::new();
    let mut nesting: usize = 0;
    let mut i: usize = 0;
    proof {
        assert(field_views(fields@) =~= Seq::<(Seq<char>, Seq<char>)>::empty());
        assert(map_views(m@) =~= Seq::<(Seq<char>, Seq<(Seq<char>, Seq<char>)>)>::empty());
        assert(name@ =~= Seq::<char>::empty());
    }
    while i < n
        invariant
            0 <= i <= n,
            n == toksv.len(),
            toksv == tok_views(tokens@),
            nesting <= i,
            build_from(toksv, i as int, name@, field_views(fields@), map_views(m@), nesting as int)
                == build_from(toksv, 0, Seq::empty(), Seq::empty(), Seq::empty(), 0),
        decreases n - i,
    {
        let tok = &tokens[i];
        match tok._type {
            TokenType::StructName => {
                name = match &tok.value {
                    Some(v) => v.clone(),
                    None => String::new(),
                };
                proof {
                    if tok.value is None {
                        assert(name@ =~= Seq::<char>::empty());
                    }
                }
                i = i + 1;
            },
            TokenType::OpenBracket => {
                nesting = nesting + 1;
                i = i + 1;
            },
            TokenType::CloseBracket => {
                if nesting > 0 {
                    let kname = name.clone();
                    let kfields = dup_fields(&fields);
                    upsert_map(&mut m, kname, kfields);
                    nesting = nesting - 1;
                }
                i = i + 1;
            },
            TokenType::NameField => {
                match &tok.value {
                    Some(fv) => {
                        let fname = fv.clone();
                        let mut j = i + 1;
                        let mut value = String::new();
                        proof {
                            assert(value@ =~= Seq::<char>::empty());
                        }
                        loop
                            invariant_except_break
                                i + 1 <= j <= n,
                                n == toksv.len(),
                                toksv == tok_views(tokens@),
                                scan_value(toksv, i + 1) == scan_value(toksv, j as int),
                                value@ == Seq::<char>::empty(),
                            ensures
                                n == toksv.len(),
                                toksv == tok_views(tokens@),
                                value@ == scan_value(toksv, i + 1).0,
                                i + 1 <= scan_value(toksv, i + 1).1 <= n,
                                j == scan_value(toksv, i + 1).1,
                            decreases n - j,
                        {
                            if j >= n {
                                proof {
                                    lemma_scan_value_advances(toksv, i + 1);
                                }
                                break ;
                            }
                            let t2 = &tokens[j];
                            if t2._type == TokenType::NameField || t2._type
                                == TokenType::CloseBracket {
                                proof {
                                    lemma_scan_value_advances(toksv, i + 1);
                                }
                                break ;
                            }
                            if t2._type == TokenType::ValueField || t2._type
                                == TokenType::StructName {
                                value = match &t2.value {
                                    Some(v) => v.clone(),
                                    None => String::new(),
                                };
                                proof {
                                    if t2.value is None {
                                        assert(value@ =~= Seq::<char>::empty());
                                    }
                                    lemma_scan_value_advances(toksv, i + 1);
                                }
                                j = j + 1;
                                break ;
                            }
                            j = j + 1;
                        }
                        upsert_fields(&mut fields, fname, value);
                        i = j;
                    },
                    None => {
                        i = i + 1;
                    },
                }
            },
            _ => {
                i = i + 1;
            },
        }
    }
    if name.as_str().unicode_len() > 0 {
        let kname = name.clone();
        upsert_map(&mut m, kname, fields);
    }
    m
}

/// Converts a parsed tree into an account holder: the tree's first block
/// name must equal the expected name, or the expected name must be the
/// wildcard, and the holder is then built from the tree's block table.
pub fn convert_from_login_user<T: Convertable>(tree: Tree, struct_name: &str) -> (r: Option<T>)
    ensures
        (r is Some) == (fosn_spec(tok_views(tree.tokens@), 0) matches Some(orig) && (struct_name@
            == orig || struct_name@ == "_Unknown_"@)),
{
    let original_struct_name = match tree.find_original_struct_name() {
        Some(v) => v,
        None => {
            return None;
        },
    };
    let wildcard = "_Unknown_";
    if !str_eq(struct_name, original_struct_name.as_str()) && !str_eq(struct_name, wildcard) {
        return None;
    }
    let map = login_map(&tree.tokens);
    Some(T::generate(map))
}

/// A match found in the tail of a text sits at the shifted position in the
/// whole.
proof fn lemma_first_match_shift(s: Seq<char>, pos: int, found: int)
    requires
        0 <= pos <= found,
        first_match_from(s, seq!['\n'], pos) == Some(found),
    ensures
        first_match_from(s.skip(pos), seq!['\n'], 0) == Some(found - pos),
    decreases found - pos,
{
    lemma_first_match_shift_step(s, pos, pos, found);
}

proof fn lemma_first_match_shift_step(s: Seq<char>, base: int, i: int, found: int)
    requires
        0 <= base <= i <= found,
        first_match_from(s, seq!['\n'], i) == Some(found),
    ensures
        first_match_from(s.skip(base), seq!['\n'], i - base) == Some(found - base),
    decreases s.len() - i,
{
    lemma_first_match_from_valid(s, seq!['\n'], i);
    let tail = s.skip(base);
    assert(tail.subrange(i - base, i - base + 1) =~= s.subrange(i, i + 1));
    if s.subrange(i, i + 1) == seq!['\n'] {
        assert(found == i);
    } else {
        lemma_first_match_shift_step(s, base, i + 1, found);
    }
}

/// A text whose tail from `pos` holds no line feed at all.
proof fn lemma_first_match_shift_none(s: Seq<char>, pos: int)
    requires
        0 <= pos <= s.len(),
        first_match_from(s, seq!['\n'], pos) is None,
    ensures
        first_match_from(s.skip(pos), seq!['\n'], 0) is None,
{
    lemma_first_match_shift_none_step(s, pos, pos);
}

proof fn lemma_first_match_shift_none_step(s: Seq<char>, base: int, i: int)
    requires
        0 <= base <= i,
        base <= s.len(),
        first_match_from(s, seq!['\n'], i) is None,
    ensures
        first_match_from(s.skip(base), seq!['\n'], i - base) is None,
    decreases s.len() + 1 - i,
{
    let tail = s.skip(base);
    if i + 1 <= s.len() {
        assert(tail.subrange(i - base, i - base + 1) =~= s.subrange(i, i + 1));
        lemma_first_match_shift_none_step(s, base, i + 1);
    }
}

} // verus!
