use vstd::prelude::*;

use crate::document::{next_newline, next_nl};
use crate::instructions::ValueView;
use crate::script::{Dest, Directive, Instruction, Source, SourceView, Variable};
use crate::text::{chars_of, copy_range, string_of};

verus! {

/// A token of a script line: a bare word, or the text between two quotes.
#[derive(Debug)]
pub enum Token {
    Word(Vec<char>),
    Quoted(Vec<char>),
}

/// What a token holds.
pub enum Tok {
    Word(Seq<char>),
    Quoted(Seq<char>),
}

impl View for Token {
    type V = Tok;

    open spec fn view(&self) -> Tok {
        match self {
            Token::Word(w) => Tok::Word(w@),
            Token::Quoted(s) => Tok::Quoted(s@),
        }
    }
}

pub open spec fn toks_of(v: Seq<Token>) -> Seq<Tok> {
    v.map_values(|t: Token| t@)
}

/// Where the lexer stands: between tokens, inside a word, or inside quotes.
pub enum Lexing {
    Between,
    InWord(Seq<char>),
    InQuotes(Seq<char>),
}

pub open spec fn is_blank(c: char) -> bool {
    c == ' ' || c == '\t' || c == '\r'
}

/// `Some(pre + rest)` for `Some(rest)`.
pub open spec fn prefixed(pre: Seq<Tok>, rest: Option<Seq<Tok>>) -> Option<Seq<Tok>> {
    match rest {
        Some(r) => Some(pre + r),
        None => None,
    }
}

/// The tokens of `line[i..]`, lexed from state `st`: words end at a blank
/// or a quote, quoted text runs to the next quote, and a `#` between tokens
/// starts a comment. `None` for an unclosed quote.
pub open spec fn lex(line: Seq<char>, i: int, st: Lexing) -> Option<Seq<Tok>>
    decreases line.len() - i,
{
    if i < 0 || i >= line.len() {
        match st {
            Lexing::Between => Some(Seq::empty()),
            Lexing::InWord(w) => Some(seq![Tok::Word(w)]),
            Lexing::InQuotes(_) => None,
        }
    } else {
        let c = line[i];
        match st {
            Lexing::Between => if is_blank(c) {
                lex(line, i + 1, Lexing::Between)
            } else if c == '#' {
                Some(Seq::empty())
            } else if c == '"' {
                lex(line, i + 1, Lexing::InQuotes(Seq::empty()))
            } else {
                lex(line, i + 1, Lexing::InWord(seq![c]))
            },
            Lexing::InWord(w) => if is_blank(c) {
                prefixed(seq![Tok::Word(w)], lex(line, i + 1, Lexing::Between))
            } else if c == '"' {
                prefixed(seq![Tok::Word(w)], lex(line, i + 1, Lexing::InQuotes(Seq::empty())))
            } else {
                lex(line, i + 1, Lexing::InWord(w.push(c)))
            },
            Lexing::InQuotes(s) => if c == '"' {
                prefixed(seq![Tok::Quoted(s)], lex(line, i + 1, Lexing::Between))
            } else {
                lex(line, i + 1, Lexing::InQuotes(s.push(c)))
            },
        }
    }
}

pub open spec fn lexing_of(mode: u8, cur: Seq<char>) -> Lexing {
    if mode == 0 {
        Lexing::Between
    } else if mode == 1 {
        Lexing::InWord(cur)
    } else {
        Lexing::InQuotes(cur)
    }
}

/// The tokens of `line`.
pub fn tokenize(line: &Vec<char>) -> (r: Option<Vec<Token>>)
    ensures
        match lex(line@, 0, Lexing::Between) {
            Some(ts) => r matches Some(v) && toks_of(v@) == ts,
            None => r is None,
        },
{
    let mut out: Vec<Token> = Vec::new();
    let mut mode: u8 = 0;
    let mut cur: Vec<char> = Vec::new();
    let mut i: usize = 0;
    assert(toks_of(out@) =~= Seq::<Tok>::empty());
    while i < line.len()
        invariant
            i <= line@.len(),
            mode <= 2,
            mode == 0 ==> cur@ == Seq::<char>::empty(),
            lex(line@, 0, Lexing::Between) == prefixed(toks_of(out@), lex(line@, i as int, lexing_of(mode, cur@))),
        decreases line@.len() - i,
    {
        let c = line[i];
        let ghost before = toks_of(out@);
        if mode == 0 {
            if c == ' ' || c == '\t' || c == '\r' {
            } else if c == '#' {
                assert(lex(line@, i as int, Lexing::Between) == Some(Seq::<Tok>::empty()));
                assert(toks_of(out@) + Seq::<Tok>::empty() =~= toks_of(out@));
                return Some(out);
            } else if c == '"' {
                mode = 2;
            } else {
                mode = 1;
                cur = Vec::new();
                cur.push(c);
                assert(cur@ =~= seq![c]);
            }
        } else if mode == 1 {
            if c == ' ' || c == '\t' || c == '\r' || c == '"' {
                let ghost w = cur@;
                out.push(Token::Word(cur));
                cur = Vec::new();
                mode = if c == '"' {
                    2
                } else {
                    0
                };
                assert(toks_of(out@) =~= before + seq![Tok::Word(w)]);
                assert(cur@ =~= Seq::<char>::empty());
                proof {
                    let rest = lex(line@, i + 1, lexing_of(mode, cur@));
                    match rest {
                        Some(r) => assert(before + (seq![Tok::Word(w)] + r) =~= toks_of(out@) + r),
                        None => {},
                    }
                }
            } else {
                cur.push(c);
            }
        } else {
            if c == '"' {
                let ghost s = cur@;
                out.push(Token::Quoted(cur));
                cur = Vec::new();
                mode = 0;
                assert(toks_of(out@) =~= before + seq![Tok::Quoted(s)]);
                proof {
                    let rest = lex(line@, i + 1, Lexing::Between);
                    match rest {
                        Some(r) => assert(before + (seq![Tok::Quoted(s)] + r) =~= toks_of(out@) + r),
                        None => {},
                    }
                }
            } else {
                cur.push(c);
            }
        }
        i = i + 1;
    }
    if mode == 2 {
        return None;
    }
    if mode == 1 {
        let ghost before = toks_of(out@);
        let ghost w = cur@;
        out.push(Token::Word(cur));
        assert(toks_of(out@) =~= before + seq![Tok::Word(w)]);
    } else {
        assert(toks_of(out@) + Seq::<Tok>::empty() =~= toks_of(out@));
    }
    Some(out)
}


pub open spec fn is_digit(c: char) -> bool {
    '0' <= c && c <= '9'
}

/// Whether `w` is a non-empty run of decimal digits.
pub open spec fn all_digits(w: Seq<char>) -> bool {
    w.len() > 0 && forall|i: int| 0 <= i < w.len() ==> is_digit(#[trigger] w[i])
}

/// The number that the decimal digits `w` write.
pub open spec fn digits_val(w: Seq<char>) -> nat
    decreases w.len(),
{
    if w.len() == 0 {
        0
    } else {
        digits_val(w.drop_last()) * 10 + ((w.last() as u32) - ('0' as u32)) as nat
    }
}

/// The whole number a word writes: digits, with an optional leading `-`.
pub open spec fn int_of(t: Tok) -> Option<int> {
    match t {
        Tok::Word(w) => if all_digits(w) {
            Some(digits_val(w) as int)
        } else if w.len() > 1 && w[0] == '-' && all_digits(w.drop_first()) {
            Some(-(digits_val(w.drop_first()) as int))
        } else {
            None
        },
        Tok::Quoted(_) => None,
    }
}

pub open spec fn u64_of(t: Tok) -> Option<u64> {
    match int_of(t) {
        Some(n) => if 0 <= n <= u64::MAX {
            Some(n as u64)
        } else {
            None
        },
        None => None,
    }
}

pub open spec fn usize_of(t: Tok) -> Option<usize> {
    match int_of(t) {
        Some(n) => if 0 <= n <= usize::MAX {
            Some(n as usize)
        } else {
            None
        },
        None => None,
    }
}

pub open spec fn i32_of(t: Tok) -> Option<i32> {
    match int_of(t) {
        Some(n) => if i32::MIN <= n <= i32::MAX {
            Some(n as i32)
        } else {
            None
        },
        None => None,
    }
}

pub open spec fn i64_of(t: Tok) -> Option<i64> {
    match int_of(t) {
        Some(n) => if i64::MIN <= n <= i64::MAX {
            Some(n as i64)
        } else {
            None
        },
        None => None,
    }
}

pub open spec fn bool_of(t: Tok) -> Option<bool> {
    if t == Tok::Word("true"@) {
        Some(true)
    } else if t == Tok::Word("false"@) {
        Some(false)
    } else {
        None
    }
}

/// A string argument: quoted text is itself, a bare word names a variable.
pub open spec fn source_of(t: Tok) -> SourceView {
    match t {
        Tok::Quoted(s) => SourceView::Str(s),
        Tok::Word(w) => SourceView::Ident(w),
    }
}

pub open spec fn quoted_of(t: Tok) -> Option<Seq<char>> {
    match t {
        Tok::Quoted(s) => Some(s),
        Tok::Word(_) => None,
    }
}

pub open spec fn word_of(t: Tok) -> Option<Seq<char>> {
    match t {
        Tok::Word(w) => Some(w),
        Tok::Quoted(_) => None,
    }
}

/// A directive's flag words: `trim` drops the final newline of the typed
/// text, `newline` types a newline first.
pub open spec fn flags_ok(ts: Seq<Tok>, from: int) -> bool {
    forall|i: int|
        from <= i < ts.len() ==> #[trigger] ts[i] == Tok::Word("trim"@) || ts[i] == Tok::Word("newline"@)
}

pub open spec fn has_flag(ts: Seq<Tok>, from: int, flag: Seq<char>) -> bool {
    exists|i: int| from <= i < ts.len() && #[trigger] ts[i] == Tok::Word(flag)
}

/// A directive with one number argument.
pub open spec fn numeric(ts: Seq<Tok>) -> Option<u64> {
    if ts.len() == 2 {
        u64_of(ts[1])
    } else {
        None
    }
}

/// A directive with one quoted argument.
pub open spec fn quoted_arg(ts: Seq<Tok>) -> Option<Seq<char>> {
    if ts.len() == 2 {
        quoted_of(ts[1])
    } else {
        None
    }
}

/// `c` in lower case, where it is an ASCII capital letter.
pub open spec fn lower_char(c: char) -> char {
    if 'A' <= c && c <= 'Z' {
        (((c as u32) + 32) as u8) as char
    } else {
        c
    }
}

/// `w` with its ASCII capital letters in lower case.
pub open spec fn ascii_lower(w: Seq<char>) -> Seq<char> {
    w.map_values(|c: char| lower_char(c))
}

/// `w` with its ASCII capital letters in lower case.
fn lowered(w: &Vec<char>) -> (r: Vec<char>)
    ensures
        r@ == ascii_lower(w@),
{
    let mut r: Vec<char> = Vec::new();
    let mut i: usize = 0;
    while i < w.len()
        invariant
            i <= w@.len(),
            r@ == ascii_lower(w@.subrange(0, i as int)),
        decreases w@.len() - i,
    {
        let c = w[i];
        let l = if 'A' <= c && c <= 'Z' {
            ((c as u32 + 32) as u8) as char
        } else {
            c
        };
        r.push(l);
        i = i + 1;
        assert(r@ =~= ascii_lower(w@.subrange(0, i as int)));
    }
    assert(w@.subrange(0, i as int) =~= w@);
    r
}

/// The directive that the tokens of a line write, led by its keyword, whose
/// letters may be of either case.
pub open spec fn directive_of(ts: Seq<Tok>) -> Option<Directive> {
    if ts.len() == 0 {
        None
    } else {
        let n = ts.len();
        match ts[0] {
            Tok::Quoted(_) => None,
            Tok::Word(word) => {
                let k = ascii_lower(word);
                if k == "load"@ {
                if n == 4 && ts[1] is Quoted && ts[2] == Tok::Word("as"@) && ts[3] is Word {
                    Some(Directive::Load(ts[1]->Quoted_0, ts[3]->Word_0))
                } else {
                    None
                }
            } else if k == "find"@ || k == "findend"@ {
                let count = if n == 2 {
                    Some(1usize)
                } else if n == 3 {
                    usize_of(ts[2])
                } else {
                    None
                };
                if (n == 2 || n == 3) && ts[1] is Quoted && count is Some {
                    if k == "find"@ {
                        Some(Directive::Find { needle: ts[1]->Quoted_0, count: count->0 })
                    } else {
                        Some(Directive::FindEnd { needle: ts[1]->Quoted_0, count: count->0 })
                    }
                } else {
                    None
                }
            } else if k == "goto"@ {
                if n == 3 && i32_of(ts[1]) is Some && i32_of(ts[2]) is Some {
                    Some(Directive::GotoRelative { row: i32_of(ts[1])->0, col: i32_of(ts[2])->0 })
                } else if n == 2 && ts[1] is Word && int_of(ts[1]) is None {
                    Some(Directive::GotoMarker(ts[1]->Word_0))
                } else {
                    None
                }
            } else if k == "select"@ {
                if n == 3 && usize_of(ts[1]) is Some && usize_of(ts[2]) is Some {
                    Some(Directive::Select { width: usize_of(ts[1])->0, height: usize_of(ts[2])->0 })
                } else {
                    None
                }
            } else if k == "delete"@ {
                if n == 1 {
                    Some(Directive::Delete)
                } else {
                    None
                }
            } else if k == "type"@ {
                if n >= 2 && flags_ok(ts, 2) {
                    Some(
                        Directive::Type {
                            source: source_of(ts[1]),
                            trim_trailing_newline: has_flag(ts, 2, "trim"@),
                            prefix_newline: has_flag(ts, 2, "newline"@),
                        },
                    )
                } else {
                    None
                }
            } else if k == "command"@ {
                if n == 2 {
                    Some(Directive::Command(source_of(ts[1])))
                } else {
                    None
                }
            } else if k == "insert"@ {
                if n == 2 {
                    Some(Directive::Insert(source_of(ts[1])))
                } else {
                    None
                }
            } else if k == "replace"@ {
                if n == 3 && ts[1] is Quoted {
                    Some(Directive::Replace { src: ts[1]->Quoted_0, replacement: source_of(ts[2]) })
                } else {
                    None
                }
            } else if k == "wait"@ {
                match numeric(ts) {
                    Some(v) => Some(Directive::Wait(v)),
                    None => None,
                }
            } else if k == "speed"@ {
                match numeric(ts) {
                    Some(v) => Some(Directive::Speed(v)),
                    None => None,
                }
            } else if k == "linepause"@ {
                match numeric(ts) {
                    Some(v) => Some(Directive::LinePause(v)),
                    None => None,
                }
            } else if k == "jitter"@ {
                match numeric(ts) {
                    Some(v) => Some(Directive::Jitter(v)),
                    None => None,
                }
            } else if k == "commandcleartimeout"@ {
                match numeric(ts) {
                    Some(v) => Some(Directive::CommandClearTimeout(v)),
                    None => None,
                }
            } else if k == "title"@ {
                match quoted_arg(ts) {
                    Some(s) => Some(Directive::SetTitle(s)),
                    None => None,
                }
            } else if k == "extension"@ {
                match quoted_arg(ts) {
                    Some(s) => Some(Directive::SetExtension(s)),
                    None => None,
                }
            } else if k == "theme"@ {
                match quoted_arg(ts) {
                    Some(s) => Some(Directive::SetTheme(s)),
                    None => None,
                }
            } else if k == "audio"@ {
                match quoted_arg(ts) {
                    Some(s) => Some(Directive::LoadAudio(s)),
                    None => None,
                }
            } else if k == "write"@ {
                match quoted_arg(ts) {
                    Some(s) => Some(Directive::WriteBuffer(s)),
                    None => None,
                }
            } else if k == "numbers"@ {
                if n == 2 && bool_of(ts[1]) is Some {
                    Some(Directive::ShowLineNumbers(bool_of(ts[1])->0))
                } else {
                    None
                }
            } else if k == "clear"@ {
                if n == 1 {
                    Some(Directive::Clear)
                } else {
                    None
                }
            } else if k == "popup"@ {
                if n == 2 {
                    Some(Directive::Popup(source_of(ts[1])))
                } else {
                    None
                }
            } else if k == "closepopup"@ {
                if n == 1 {
                    Some(Directive::ClosePopup)
                } else {
                    None
                }
            } else if k == "set"@ {
                if n == 3 && ts[1] is Word {
                    if bool_of(ts[2]) is Some {
                        Some(Directive::Assign(ts[1]->Word_0, ValueView::Bool(bool_of(ts[2])->0)))
                    } else if i64_of(ts[2]) is Some {
                        Some(Directive::Assign(ts[1]->Word_0, ValueView::Int(i64_of(ts[2])->0)))
                    } else if ts[2] is Quoted {
                        Some(Directive::Assign(ts[1]->Word_0, ValueView::Str(ts[2]->Quoted_0)))
                    } else {
                        None
                    }
                } else {
                    None
                }
            } else {
                None
            }
            },
        }
    }
}


/// A bound that no number of a directive reaches: larger values are held
/// as this.
pub open spec fn cap() -> int {
    0x1_0000_0000_0000_0000
}

pub open spec fn capped(n: int) -> int {
    if n >= cap() {
        cap()
    } else if n <= -cap() {
        -cap()
    } else {
        n
    }
}

/// The value of the digits `w[from..]`, capped.
fn digits_value(w: &Vec<char>, from: usize) -> (r: Option<u128>)
    requires
        from <= w@.len(),
    ensures
        r is Some <==> all_digits(w@.subrange(from as int, w@.len() as int)),
        r matches Some(v) ==> v == capped(digits_val(w@.subrange(from as int, w@.len() as int)) as int),
{
    if from == w.len() {
        return None;
    }
    let mut acc: u128 = 0;
    let mut i = from;
    while i < w.len()
        invariant
            from <= i <= w@.len(),
            forall|j: int| from <= j < i ==> is_digit(#[trigger] w@[j]),
            acc == capped(digits_val(w@.subrange(from as int, i as int)) as int),
        decreases w@.len() - i,
    {
        let c = w[i];
        if !('0' <= c && c <= '9') {
            assert(!is_digit(w@.subrange(from as int, w@.len() as int)[i - from]));
            return None;
        }
        let d = (c as u32 - '0' as u32) as u128;
        let ghost prev = w@.subrange(from as int, i as int);
        assert(w@.subrange(from as int, i + 1).drop_last() =~= prev);
        acc = if acc >= 0x1_0000_0000_0000_0000u128 {
            acc
        } else {
            let next = acc * 10 + d;
            if next >= 0x1_0000_0000_0000_0000u128 {
                0x1_0000_0000_0000_0000u128
            } else {
                next
            }
        };
        i = i + 1;
    }
    assert(all_digits(w@.subrange(from as int, w@.len() as int)));
    Some(acc)
}

/// The whole number a token writes, capped.
fn int_value(t: &Token) -> (r: Option<i128>)
    ensures
        match int_of(t@) {
            Some(n) => r == Some(capped(n) as i128),
            None => r is None,
        },
{
    match t {
        Token::Quoted(_) => None,
        Token::Word(w) => {
            assert(w@.subrange(0, w@.len() as int) =~= w@);
            match digits_value(w, 0) {
                Some(v) => Some(v as i128),
                None => {
                    if w.len() > 1 && w[0] == '-' {
                        assert(w@.subrange(1, w@.len() as int) =~= w@.drop_first());
                        match digits_value(w, 1) {
                            Some(v) => Some(-(v as i128)),
                            None => None,
                        }
                    } else {
                        None
                    }
                },
            }
        },
    }
}

fn u64_value(t: &Token) -> (r: Option<u64>)
    ensures
        r == u64_of(t@),
{
    match int_value(t) {
        Some(v) => if 0 <= v && v <= u64::MAX as i128 {
            Some(v as u64)
        } else {
            None
        },
        None => None,
    }
}

fn usize_value(t: &Token) -> (r: Option<usize>)
    ensures
        r == usize_of(t@),
{
    match int_value(t) {
        Some(v) => if 0 <= v && v <= usize::MAX as i128 {
            Some(v as usize)
        } else {
            None
        },
        None => None,
    }
}

fn i32_value(t: &Token) -> (r: Option<i32>)
    ensures
        r == i32_of(t@),
{
    match int_value(t) {
        Some(v) => if i32::MIN as i128 <= v && v <= i32::MAX as i128 {
            Some(v as i32)
        } else {
            None
        },
        None => None,
    }
}

fn i64_value(t: &Token) -> (r: Option<i64>)
    ensures
        r == i64_of(t@),
{
    match int_value(t) {
        Some(v) => if i64::MIN as i128 <= v && v <= i64::MAX as i128 {
            Some(v as i64)
        } else {
            None
        },
        None => None,
    }
}

/// Whether `w` spells `kw`.
fn spells(w: &Vec<char>, kw: &str) -> (r: bool)
    ensures
        r == (w@ == kw@),
{
    let k = chars_of(kw);
    if k.len() != w.len() {
        return false;
    }
    let mut i: usize = 0;
    while i < k.len()
        invariant
            i <= k@.len(),
            k@ == kw@,
            k@.len() == w@.len(),
            forall|j: int| 0 <= j < i ==> k@[j] == w@[j],
        decreases k@.len() - i,
    {
        if k[i] != w[i] {
            return false;
        }
        i = i + 1;
    }
    assert(k@ =~= w@);
    true
}

/// Whether `t` is the bare word `kw`.
fn is_word(t: &Token, kw: &str) -> (r: bool)
    ensures
        r == (t@ == Tok::Word(kw@)),
{
    match t {
        Token::Word(w) => spells(w, kw),
        Token::Quoted(_) => false,
    }
}

fn bool_value(t: &Token) -> (r: Option<bool>)
    ensures
        r == bool_of(t@),
{
    if is_word(t, "true") {
        Some(true)
    } else if is_word(t, "false") {
        Some(false)
    } else {
        None
    }
}

fn source_from(t: &Token) -> (r: Source)
    ensures
        r@ == source_of(t@),
{
    match t {
        Token::Quoted(s) => Source::Str(string_of(s)),
        Token::Word(w) => Source::Ident(string_of(w)),
    }
}

fn quoted_text(t: &Token) -> (r: Option<String>)
    ensures
        match quoted_of(t@) {
            Some(s) => r matches Some(x) && x@ == s,
            None => r is None,
        },
{
    match t {
        Token::Quoted(s) => Some(string_of(s)),
        Token::Word(_) => None,
    }
}

fn word_text(t: &Token) -> (r: Option<String>)
    ensures
        match word_of(t@) {
            Some(s) => r matches Some(x) && x@ == s,
            None => r is None,
        },
{
    match t {
        Token::Word(w) => Some(string_of(w)),
        Token::Quoted(_) => None,
    }
}


fn numeric_arg(ts: &Vec<Token>) -> (r: Option<u64>)
    ensures
        r == numeric(toks_of(ts@)),
{
    if ts.len() == 2 {
        u64_value(&ts[1])
    } else {
        None
    }
}

fn quoted_argument(ts: &Vec<Token>) -> (r: Option<String>)
    ensures
        match quoted_arg(toks_of(ts@)) {
            Some(s) => r matches Some(x) && x@ == s,
            None => r is None,
        },
{
    if ts.len() == 2 {
        quoted_text(&ts[1])
    } else {
        None
    }
}

/// The flags of a `type` directive: whether they are all known, then
/// whether `trim` and `newline` are among them.
fn type_flags(ts: &Vec<Token>) -> (r: (bool, bool, bool))
    requires
        ts@.len() >= 2,
    ensures
        r.0 == flags_ok(toks_of(ts@), 2),
        r.0 ==> r.1 == has_flag(toks_of(ts@), 2, "trim"@),
        r.0 ==> r.2 == has_flag(toks_of(ts@), 2, "newline"@),
{
    let ghost tv = toks_of(ts@);
    let mut trim = false;
    let mut newline = false;
    let mut i: usize = 2;
    while i < ts.len()
        invariant
            2 <= i <= ts@.len(),
            tv == toks_of(ts@),
            flags_ok(tv.subrange(0, i as int), 2),
            trim == has_flag(tv.subrange(0, i as int), 2, "trim"@),
            newline == has_flag(tv.subrange(0, i as int), 2, "newline"@),
        decreases ts@.len() - i,
    {
        let ghost sub = tv.subrange(0, i + 1);
        assert(sub[i as int] == tv[i as int]);
        assert(forall|j: int| 0 <= j < i ==> sub[j] == tv.subrange(0, i as int)[j]);
        let ghost prev = tv.subrange(0, i as int);
        proof {
            reveal_strlit("trim");
            reveal_strlit("newline");
            assert("trim"@.len() != "newline"@.len());
            assert(Tok::Word("trim"@) != Tok::Word("newline"@));
            assert forall|f: Seq<char>| sub[i as int] != Tok::Word(f) implies has_flag(sub, 2, f) == has_flag(prev, 2, f) by {
                if has_flag(sub, 2, f) {
                    let j = choose|j: int| 2 <= j < sub.len() && #[trigger] sub[j] == Tok::Word(f);
                    assert(prev[j] == sub[j]);
                }
                if has_flag(prev, 2, f) {
                    let j = choose|j: int| 2 <= j < prev.len() && #[trigger] prev[j] == Tok::Word(f);
                    assert(prev[j] == sub[j]);
                }
            }
            assert(sub[i as int] == Tok::Word("trim"@) ==> has_flag(sub, 2, "trim"@));
            assert(sub[i as int] == Tok::Word("newline"@) ==> has_flag(sub, 2, "newline"@));
        }
        if is_word(&ts[i], "trim") {
            trim = true;
        } else if is_word(&ts[i], "newline") {
            newline = true;
        } else {
            assert(!flags_ok(tv, 2)) by {
                assert(!(tv[i as int] == Tok::Word("trim"@) || tv[i as int] == Tok::Word("newline"@)));
            }
            return (false, false, false);
        }
        i = i + 1;
        assert(tv.subrange(0, i as int) == sub);
    }
    assert(tv.subrange(0, i as int) =~= tv);
    (true, trim, newline)
}

/// The directive that the tokens of a line write.
#[verifier::rlimit(60)]
pub fn directive(ts: &Vec<Token>) -> (r: Option<Instruction>)
    ensures
        match directive_of(toks_of(ts@)) {
            Some(d) => r matches Some(i) && i@ == d,
            None => r is None,
        },
{
    let ghost tv = toks_of(ts@);
    let n = ts.len();
    if n == 0 {
        return None;
    }
    let word = match &ts[0] {
        Token::Quoted(_) => {
            return None;
        },
        Token::Word(w) => w,
    };
    assert(tv[0] == Tok::Word(word@));
    let lk = lowered(word);
    let k = &lk;
    if spells(k, "load") {
        if n == 4 && is_word(&ts[2], "as") {
            match (quoted_text(&ts[1]), word_text(&ts[3])) {
                (Some(p), Some(name)) => Some(Instruction::Load(p, name)),
                _ => None,
            }
        } else {
            None
        }
    } else if spells(k, "find") || spells(k, "findend") {
        let count = if n == 2 {
            Some(1usize)
        } else if n == 3 {
            usize_value(&ts[2])
        } else {
            None
        };
        if n == 2 || n == 3 {
            match (quoted_text(&ts[1]), count) {
                (Some(needle), Some(count)) => if spells(k, "find") {
                    Some(Instruction::Find { needle, count })
                } else {
                    Some(Instruction::FindEnd { needle, count })
                },
                _ => None,
            }
        } else {
            None
        }
    } else if spells(k, "goto") {
        if n == 3 {
            match (i32_value(&ts[1]), i32_value(&ts[2])) {
                (Some(row), Some(col)) => Some(Instruction::Goto(Dest::Relative { row, col })),
                _ => None,
            }
        } else if n == 2 && int_value(&ts[1]).is_none() {
            match word_text(&ts[1]) {
                Some(name) => Some(Instruction::Goto(Dest::Marker(name))),
                None => None,
            }
        } else {
            None
        }
    } else if spells(k, "select") {
        if n == 3 {
            match (usize_value(&ts[1]), usize_value(&ts[2])) {
                (Some(width), Some(height)) => Some(Instruction::Select { width, height }),
                _ => None,
            }
        } else {
            None
        }
    } else if spells(k, "delete") {
        if n == 1 {
            Some(Instruction::Delete)
        } else {
            None
        }
    } else if spells(k, "type") {
        if n >= 2 {
            let (ok, trim, newline) = type_flags(ts);
            if ok {
                Some(
                    Instruction::Type {
                        source: source_from(&ts[1]),
                        trim_trailing_newline: trim,
                        prefix_newline: newline,
                    },
                )
            } else {
                None
            }
        } else {
            None
        }
    } else if spells(k, "command") {
        if n == 2 {
            Some(Instruction::Command(source_from(&ts[1])))
        } else {
            None
        }
    } else if spells(k, "insert") {
        if n == 2 {
            Some(Instruction::Insert(source_from(&ts[1])))
        } else {
            None
        }
    } else if spells(k, "replace") {
        if n == 3 {
            match quoted_text(&ts[1]) {
                Some(src) => Some(Instruction::Replace { src, replacement: source_from(&ts[2]) }),
                None => None,
            }
        } else {
            None
        }
    } else if spells(k, "wait") {
        match numeric_arg(ts) {
            Some(v) => Some(Instruction::Wait(v)),
            None => None,
        }
    } else if spells(k, "speed") {
        match numeric_arg(ts) {
            Some(v) => Some(Instruction::Speed(v)),
            None => None,
        }
    } else if spells(k, "linepause") {
        match numeric_arg(ts) {
            Some(v) => Some(Instruction::LinePause(v)),
            None => None,
        }
    } else if spells(k, "jitter") {
        match numeric_arg(ts) {
            Some(v) => Some(Instruction::Jitter(v)),
            None => None,
        }
    } else if spells(k, "commandcleartimeout") {
        match numeric_arg(ts) {
            Some(v) => Some(Instruction::CommandClearTimeout(v)),
            None => None,
        }
    } else if spells(k, "title") {
        match quoted_argument(ts) {
            Some(s) => Some(Instruction::SetTitle(s)),
            None => None,
        }
    } else if spells(k, "extension") {
        match quoted_argument(ts) {
            Some(s) => Some(Instruction::SetExtension(s)),
            None => None,
        }
    } else if spells(k, "theme") {
        match quoted_argument(ts) {
            Some(s) => Some(Instruction::SetTheme(s)),
            None => None,
        }
    } else if spells(k, "audio") {
        match quoted_argument(ts) {
            Some(s) => Some(Instruction::LoadAudio(s)),
            None => None,
        }
    } else if spells(k, "write") {
        match quoted_argument(ts) {
            Some(s) => Some(Instruction::WriteBuffer(s)),
            None => None,
        }
    } else if spells(k, "numbers") {
        if n == 2 {
            match bool_value(&ts[1]) {
                Some(b) => Some(Instruction::ShowLineNumbers(b)),
                None => None,
            }
        } else {
            None
        }
    } else if spells(k, "clear") {
        if n == 1 {
            Some(Instruction::Clear)
        } else {
            None
        }
    } else if spells(k, "popup") {
        if n == 2 {
            Some(Instruction::Popup(source_from(&ts[1])))
        } else {
            None
        }
    } else if spells(k, "closepopup") {
        if n == 1 {
            Some(Instruction::ClosePopup)
        } else {
            None
        }
    } else if spells(k, "set") {
        if n == 3 {
            match word_text(&ts[1]) {
                Some(name) => {
                    if let Some(b) = bool_value(&ts[2]) {
                        Some(Instruction::Assign(name, Variable::Bool(b)))
                    } else if let Some(v) = i64_value(&ts[2]) {
                        Some(Instruction::Assign(name, Variable::Int(v)))
                    } else {
                        match quoted_text(&ts[2]) {
                            Some(s) => Some(Instruction::Assign(name, Variable::Str(s))),
                            None => None,
                        }
                    }
                },
                None => None,
            }
        } else {
            None
        }
    } else {
        None
    }
}


/// A script line that is not a directive: its number, from one.
#[derive(Debug, Clone, Copy, PartialEq, Eq, Structural)]
pub struct ParseError {
    pub line: usize,
}

/// The directives of `t` from index `i` on, where the line at `i` is the
/// one after the first `row` lines; blank and comment lines are skipped.
/// `Err(n)`: line `n` (from one) is not a directive.
pub open spec fn parse_lines(t: Seq<char>, i: int, row: nat) -> Result<Seq<Directive>, nat>
    decreases t.len() - i,
{
    if i < 0 || i >= t.len() {
        Ok(Seq::empty())
    } else {
        let e = next_nl(t, i);
        let next = if i <= e < t.len() {
            e + 1
        } else {
            t.len() as int
        };
        match lex(t.subrange(i, e), 0, Lexing::Between) {
            None => Err(row + 1),
            Some(ts) => if ts.len() == 0 {
                parse_lines(t, next, row + 1)
            } else {
                match directive_of(ts) {
                    None => Err(row + 1),
                    Some(d) => match parse_lines(t, next, row + 1) {
                        Err(n) => Err(n),
                        Ok(rest) => Ok(seq![d] + rest),
                    },
                }
            },
        }
    }
}

pub open spec fn directives_of(v: Seq<Instruction>) -> Seq<Directive> {
    v.map_values(|i: Instruction| i@)
}

/// The directives of a script, one per line that is not blank or a comment.
pub fn parse(input: &str) -> (r: Result<Vec<Instruction>, ParseError>)
    ensures
        match parse_lines(input@, 0, 0) {
            Ok(ds) => r matches Ok(v) && directives_of(v@) == ds,
            Err(n) => r matches Err(e) && e.line == n,
        },
{
    let t = chars_of(input);
    let len = t.len();
    let mut out: Vec<Instruction> = Vec::new();
    let mut i: usize = 0;
    let mut row: usize = 0;
    assert(directives_of(out@) =~= Seq::<Directive>::empty());
    while i < len
        invariant
            len == t@.len(),
            t@ == input@,
            i <= len,
            row <= i,
            parse_lines(t@, 0, 0) == match parse_lines(t@, i as int, row as nat) {
                Ok(rest) => Ok(directives_of(out@) + rest),
                Err(n) => Err::<Seq<Directive>, nat>(n),
            },
        decreases len - i,
    {
        let e = next_newline(&t, i);
        let next = if e < len {
            e + 1
        } else {
            len
        };
        let line = copy_range(&t, i, e);
        match tokenize(&line) {
            None => {
                return Err(ParseError { line: row + 1 });
            },
            Some(ts) => {
                if ts.len() > 0 {
                    match directive(&ts) {
                        None => {
                            return Err(ParseError { line: row + 1 });
                        },
                        Some(d) => {
                            let ghost before = directives_of(out@);
                            let ghost dv = d@;
                            out.push(d);
                            assert(directives_of(out@) =~= before.push(dv));
                            proof {
                                match parse_lines(t@, next as int, (row + 1) as nat) {
                                    Ok(rest) => {
                                        assert(before + (seq![dv] + rest) =~= directives_of(out@) + rest);
                                    },
                                    Err(_) => {},
                                }
                            }
                        },
                    }
                }
            },
        }
        i = next;
        row = row + 1;
    }
    assert(directives_of(out@) + Seq::<Directive>::empty() =~= directives_of(out@));
    Ok(out)
}

} // verus!
