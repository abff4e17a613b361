//! Minimal deterministic S-expression reader and writer for KiCad 10 files.

use vstd::prelude::*;

use crate::text::{is_whitespace, is_ws, chars_of, push_char, push_str, string_of};
use crate::tree::{
    is_leaf, leaf_text, leaves_of, lemma_leaves_push, lemma_rest_push,
    lemma_spaced_push, render, rest_text, spaced, spaces, Tree,
};

verus! {

broadcast use vstd::string::group_string_axioms;

/// A single S-expression node.
#[derive(Debug, PartialEq)]
pub enum Sexpr {
    /// A parenthesised list of child nodes.
    List(Vec<Sexpr>),
    /// An atom printed exactly as stored (caller is responsible for quoting).
    Atom(String),
    /// A raw fragment printed exactly as stored, bypassing normal formatting.
    Raw(String),
}

/// The models of a sequence of nodes.
pub open spec fn view_all(s: Seq<Sexpr>) -> Seq<Tree>
    decreases s,
{
    if s.len() == 0 {
        Seq::empty()
    } else {
        view_all(s.drop_last()).push(view_one(s.last()))
    }
}

/// The model of one node.
pub open spec fn view_one(x: Sexpr) -> Tree
    decreases x,
{
    match x {
        Sexpr::List(v) => Tree::List(view_all(v@)),
        Sexpr::Atom(s) => Tree::Atom(s@),
        Sexpr::Raw(s) => Tree::Raw(s@),
    }
}

impl View for Sexpr {
    type V = Tree;

    open spec fn view(&self) -> Tree {
        view_one(*self)
    }
}

pub proof fn lemma_view_all(s: Seq<Sexpr>)
    ensures
        view_all(s).len() == s.len(),
        forall|i: int| 0 <= i < s.len() ==> #[trigger] view_all(s)[i] == view_one(s[i]),
    decreases s.len(),
{
    if s.len() > 0 {
        lemma_view_all(s.drop_last());
    }
}

/// The escape sequence written for one character of a quoted string.
pub open spec fn escape_char(c: char) -> Seq<char> {
    if c == '\\' {
        seq!['\\', '\\']
    } else if c == '"' {
        seq!['\\', '"']
    } else if c == '\n' {
        seq!['\\', 'n']
    } else if c == '\t' {
        seq!['\\', 't']
    } else if c == '\r' {
        seq!['\\', 'r']
    } else {
        seq![c]
    }
}

/// `s` with `\`, `"`, newline, tab and carriage return escaped.
pub open spec fn escape(s: Seq<char>) -> Seq<char>
    decreases s.len(),
{
    if s.len() == 0 {
        Seq::empty()
    } else {
        escape(s.drop_last()) + escape_char(s.last())
    }
}

/// The text of a quoted string atom holding `s`.
pub open spec fn quoted(s: Seq<char>) -> Seq<char> {
    seq!['"'] + escape(s) + seq!['"']
}

/// The body of a quoted atom read left to right, each escape sequence `\c`
/// that [`unescape`] knows replaced by the character it stands for; any
/// other backslash is kept as it stands.
pub open spec fn unquote(s: Seq<char>) -> Seq<char>
    decreases s.len(),
{
    if s.len() == 0 {
        Seq::empty()
    } else if s.len() >= 2 && s[0] == '\\' && unescape(s[1]) is Some {
        seq![unescape(s[1])->0] + unquote(s.skip(2))
    } else {
        seq![s[0]] + unquote(s.skip(1))
    }
}

/// What [`Sexpr::as_string`] returns for a node.
pub open spec fn as_string_spec(t: Tree) -> Seq<char> {
    match t {
        Tree::Atom(a) => if a.len() >= 2 && a[0] == '"' && a.last() == '"' {
            unquote(a.subrange(1, a.len() - 1))
        } else {
            a
        },
        _ => Seq::empty(),
    }
}

/// Escapes `s` for use inside a quoted string.
pub fn escape_str(s: &str) -> (r: String)
    ensures
        r@ == escape(s@),
{
    let cs = chars_of(s);
    let mut out = String::new();
    let mut i: usize = 0;
    while i < cs.len()
        invariant
            i <= cs@.len(),
            cs@ == s@,
            out@ == escape(cs@.take(i as int)),
        decreases cs@.len() - i,
    {
        let c = cs[i];
        let ghost before = out@;
        if c == '\\' {
            push_char(&mut out, '\\');
            push_char(&mut out, '\\');
        } else if c == '"' {
            push_char(&mut out, '\\');
            push_char(&mut out, '"');
        } else if c == '\n' {
            push_char(&mut out, '\\');
            push_char(&mut out, 'n');
        } else if c == '\t' {
            push_char(&mut out, '\\');
            push_char(&mut out, 't');
        } else if c == '\r' {
            push_char(&mut out, '\\');
            push_char(&mut out, 'r');
        } else {
            push_char(&mut out, c);
        }
        assert(out@ =~= before + escape_char(c));
        i = i + 1;
        assert(cs@.take(i as int).drop_last() =~= cs@.take(i - 1));
    }
    assert(cs@.take(i as int) =~= cs@);
    out
}

impl Sexpr {
    /// Construct a list from child nodes.
    pub fn list(children: Vec<Sexpr>) -> (r: Sexpr)
        ensures
            r == Sexpr::List(children),
    {
        Sexpr::List(children)
    }

    /// Construct an atom.
    pub fn atom(s: &str) -> (r: Sexpr)
        ensures
            r@ == Tree::Atom(s@),
    {
        Sexpr::Atom(s.to_owned())
    }

    /// Construct a quoted string atom: `"s"`, escaping `"`, `\`, newline,
    /// tab and carriage return.
    pub fn str(s: &str) -> (r: Sexpr)
        ensures
            r@ == Tree::Atom(quoted(s@)),
    {
        let mut out = String::new();
        push_char(&mut out, '"');
        let e = escape_str(s);
        push_str(&mut out, e.as_str());
        push_char(&mut out, '"');
        assert(out@ =~= quoted(s@));
        Sexpr::Atom(out)
    }

    /// Construct a raw node.
    pub fn raw(s: &str) -> (r: Sexpr)
        ensures
            r@ == Tree::Raw(s@),
    {
        Sexpr::Raw(s.to_owned())
    }

    /// Return the unquoted string value of a quoted atom, or the raw atom
    /// text for unquoted atoms. Returns an empty string for lists and raw
    /// fragments.
    pub fn as_string(&self) -> (r: String)
        ensures
            r@ == as_string_spec(self@),
    {
        match self {
            Sexpr::Atom(s) => {
                let cs = chars_of(s.as_str());
                let n = cs.len();
                if n >= 2 && cs[0] == '"' && cs[n - 1] == '"' {
                    let mut inner: Vec<char> = Vec::new();
                    let mut i: usize = 1;
                    while i < n - 1
                        invariant
                            n == cs@.len(),
                            n >= 2,
                            1 <= i <= n - 1,
                            inner@ == cs@.subrange(1, i as int),
                        decreases n - 1 - i,
                    {
                        inner.push(cs[i]);
                        i = i + 1;
                        assert(inner@ =~= cs@.subrange(1, i as int));
                    }
                    proof {
                        assert(inner@.skip(0) =~= inner@);
                    }
                    let mut out = String::new();
                    let m = inner.len();
                    let mut k: usize = 0;
                    while k < m
                        invariant
                            m == inner@.len(),
                            k <= m,
                            out@ + unquote(inner@.skip(k as int)) == unquote(inner@),
                        decreases m - k,
                    {
                        let ghost rest = inner@.skip(k as int);
                        let c = inner[k];
                        let mut decoded: Option<char> = None;
                        if c == '\\' && k + 1 < m {
                            decoded = unescape_char(inner[k + 1]);
                        }
                        match decoded {
                            Some(u) => {
                                proof {
                                    assert(rest.skip(2) =~= inner@.skip(k + 2));
                                    assert(out@.push(u) + unquote(rest.skip(2)) =~= out@ + unquote(rest));
                                }
                                push_char(&mut out, u);
                                k = k + 2;
                            },
                            None => {
                                proof {
                                    assert(rest.skip(1) =~= inner@.skip(k + 1));
                                    assert(out@.push(c) + unquote(rest.skip(1)) =~= out@ + unquote(rest));
                                }
                                push_char(&mut out, c);
                                k = k + 1;
                            },
                        }
                    }
                    proof {
                        assert(inner@.skip(m as int) =~= Seq::<char>::empty());
                        assert(out@ + Seq::<char>::empty() =~= out@);
                    }
                    out
                } else {
                    s.clone()
                }
            },
            _ => String::new(),
        }
    }

    /// True if this node is an atom or raw text (i.e. has no children).
    pub fn is_leaf(&self) -> (b: bool)
        ensures
            b == is_leaf(self@),
    {
        match self {
            Sexpr::List(_) => false,
            _ => true,
        }
    }
}

pub proof fn lemma_view_all_push(s: Seq<Sexpr>, x: Sexpr)
    ensures
        view_all(s.push(x)) == view_all(s).push(view_one(x)),
{
    assert(s.push(x).drop_last() =~= s);
}

impl Sexpr {
    /// A deep copy of this node.
    pub fn copy(&self) -> (r: Sexpr)
        ensures
            r@ == self@,
        decreases self,
    {
        match self {
            Sexpr::Atom(s) => Sexpr::Atom(s.clone()),
            Sexpr::Raw(s) => Sexpr::Raw(s.clone()),
            Sexpr::List(children) => {
                let mut out: Vec<Sexpr> = Vec::new();
                let mut i: usize = 0;
                while i < children.len()
                    invariant
                        i <= children@.len(),
                        *self == Sexpr::List(*children),
                        self@ == Tree::List(view_all(children@)),
                        view_all(out@) == view_all(children@.take(i as int)),
                    decreases children@.len() - i,
                {
                    let c0 = &children[i];
                    assert(*c0 == children@[i as int]);
                    let c = c0.copy();
                    proof {
                        lemma_view_all_push(out@, c);
                        lemma_view_all_push(children@.take(i as int), children@[i as int]);
                        assert(children@.take(i + 1) =~= children@.take(i as int).push(children@[i as int]));
                    }
                    out.push(c);
                    i = i + 1;
                }
                assert(children@.take(i as int) =~= children@);
                Sexpr::List(out)
            },
        }
    }

    /// Appends the printed form of this node at the indentation `pad` (a
    /// string of spaces).
    pub fn write_into(&self, out: &mut String, pad: &str)
        requires
            pad@ == spaces(pad@.len()),
        ensures
            final(out)@ == old(out)@ + render(self@, pad@.len()),
        decreases self,
    {
        match self {
            Sexpr::Atom(s) => push_str(out, s.as_str()),
            Sexpr::Raw(s) => push_str(out, s.as_str()),
            Sexpr::List(children) => {
                let ghost o0 = out@;
                let ghost cs = view_all(children@);
                proof {
                    lemma_view_all(children@);
                }
                push_char(out, '(');
                let ghost o1 = out@;
                let mut count: usize = 0;
                let mut i: usize = 0;
                while i < children.len()
                    invariant
                        i <= children@.len(),
                        cs == view_all(children@),
                        cs.len() == children@.len(),
                        forall|k: int| 0 <= k < cs.len() ==> #[trigger] cs[k] == view_one(children@[k]),
                        out@ == o1 + spaced(leaves_of(cs.take(i as int))),
                        count == leaves_of(cs.take(i as int)).len(),
                        count <= i,
                    decreases children@.len() - i,
                {
                    let c = &children[i];
                    proof {
                        assert(cs.take(i + 1) =~= cs.take(i as int).push(cs[i as int]));
                        lemma_leaves_push(cs.take(i as int), cs[i as int]);
                        lemma_spaced_push(leaves_of(cs.take(i as int)), leaf_text(cs[i as int]));
                    }
                    match c {
                        Sexpr::List(_) => {},
                        Sexpr::Atom(t) => {
                            if count > 0 {
                                push_char(out, ' ');
                            }
                            push_str(out, t.as_str());
                            count = count + 1;
                        },
                        Sexpr::Raw(t) => {
                            if count > 0 {
                                push_char(out, ' ');
                            }
                            push_str(out, t.as_str());
                            count = count + 1;
                        },
                    }
                    i = i + 1;
                }
                assert(cs.take(i as int) =~= cs);
                let ghost o2 = out@;
                let mut child_pad = pad.to_owned();
                push_char(&mut child_pad, ' ');
                push_char(&mut child_pad, ' ');
                assert(child_pad@ =~= spaces(pad@.len() + 2));
                let ghost child_indent = pad@.len() + 2;
                let mut j: usize = 0;
                assert(cs.take(0) =~= Seq::<Tree>::empty());
                while j < children.len()
                    invariant
                        j <= children@.len(),
                        cs == view_all(children@),
                        cs.len() == children@.len(),
                        forall|k: int| 0 <= k < cs.len() ==> #[trigger] cs[k] == view_one(children@[k]),
                        self@ == Tree::List(cs),
                        *self == Sexpr::List(*children),
                        child_indent == pad@.len() + 2,
                        child_pad@ == spaces(child_indent),
                        out@ == o2 + rest_text(cs.take(j as int), child_indent),
                    decreases children@.len() - j,
                {
                    let c = &children[j];
                    proof {
                        assert(cs.take(j + 1) =~= cs.take(j as int).push(cs[j as int]));
                        lemma_rest_push(cs.take(j as int), cs[j as int], child_indent);
                    }
                    if !c.is_leaf() {
                        let ghost before = out@;
                        push_char(out, '\n');
                        push_str(out, child_pad.as_str());
                        c.write_into(out, child_pad.as_str());
                        assert(out@ =~= before + (seq!['\n'] + spaces(child_indent) + render(cs[j as int], child_indent)));
                    } else {
                        assert(out@ =~= out@ + Seq::<char>::empty());
                    }
                    j = j + 1;
                }
                assert(cs.take(j as int) =~= cs);
                push_char(out, ')');
                assert(out@ =~= o0 + render(self@, pad@.len()));
            },
        }
    }

    /// The printed form of this node, as a `Display` impl would write it.
    pub fn to_string(&self) -> (r: String)
        ensures
            r@ == render(self@, 0),
    {
        let mut out = String::new();
        let pad = String::new();
        assert(pad@ =~= spaces(0));
        self.write_into(&mut out, pad.as_str());
        out
    }
}

/// `Tree` of a quoted string atom.
pub open spec fn str_t(s: Seq<char>) -> Tree {
    Tree::Atom(quoted(s))
}

/// `Tree` of `(key "val")`.
pub open spec fn kv_t(key: Seq<char>, val: Seq<char>) -> Tree {
    Tree::List(seq![Tree::Atom(key), str_t(val)])
}

/// Appends a node to a list of children.
pub fn push_node(v: &mut Vec<Sexpr>, x: Sexpr)
    ensures
        final(v)@ == old(v)@.push(x),
        view_all(final(v)@) == view_all(old(v)@).push(x@),
{
    proof {
        lemma_view_all_push(v@, x);
    }
    v.push(x);
}

/// `(tag child…)`: a list whose head is the atom `tag`.
pub fn tagged(tag: &str, rest: Vec<Sexpr>) -> (r: Sexpr)
    ensures
        r@ == Tree::List(seq![Tree::Atom(tag@)] + view_all(rest@)),
{
    let mut v = rest;
    let ghost r0 = v@;
    let head = Sexpr::atom(tag);
    v.insert(0, head);
    proof {
        lemma_view_all(v@);
        lemma_view_all(r0);
        assert(view_all(v@) =~= seq![Tree::Atom(tag@)] + view_all(r0));
    }
    Sexpr::list(v)
}

/// `Tree` of `(a b)`, two atoms.
pub open spec fn atom_pair_t(a: Seq<char>, b: Seq<char>) -> Tree {
    Tree::List(seq![Tree::Atom(a), Tree::Atom(b)])
}

/// `(a b)`: a list of two atoms.
pub fn atom_pair(a: &str, b: &str) -> (r: Sexpr)
    ensures
        r@ == atom_pair_t(a@, b@),
{
    let mut v: Vec<Sexpr> = Vec::new();
    push_node(&mut v, Sexpr::atom(a));
    push_node(&mut v, Sexpr::atom(b));
    proof {
        lemma_view_all(v@);
        assert(view_all(v@) =~= seq![Tree::Atom(a@), Tree::Atom(b@)]);
    }
    Sexpr::list(v)
}

/// `Tree` of `(a b c)`, three atoms.
pub open spec fn atom_triple_t(a: Seq<char>, b: Seq<char>, c: Seq<char>) -> Tree {
    Tree::List(seq![Tree::Atom(a), Tree::Atom(b), Tree::Atom(c)])
}

/// `(a b c)`: a list of three atoms.
pub fn atom_triple(a: &str, b: &str, c: &str) -> (r: Sexpr)
    ensures
        r@ == atom_triple_t(a@, b@, c@),
{
    let mut v: Vec<Sexpr> = Vec::new();
    push_node(&mut v, Sexpr::atom(a));
    push_node(&mut v, Sexpr::atom(b));
    push_node(&mut v, Sexpr::atom(c));
    proof {
        lemma_view_all(v@);
        assert(view_all(v@) =~= seq![Tree::Atom(a@), Tree::Atom(b@), Tree::Atom(c@)]);
    }
    Sexpr::list(v)
}

/// Convenience: `(key "val")`.
pub fn kv(key: &str, val: &str) -> (r: Sexpr)
    ensures
        r@ == Tree::List(seq![Tree::Atom(key@), Tree::Atom(quoted(val@))]),
{
    let mut v: Vec<Sexpr> = Vec::new();
    v.push(Sexpr::atom(key));
    v.push(Sexpr::str(val));
    proof {
        lemma_view_all(v@);
        assert(view_all(v@) =~= seq![Tree::Atom(key@), Tree::Atom(quoted(val@))]);
    }
    Sexpr::list(v)
}

// ---------------------------------------------------------------------------
// Reading
// ---------------------------------------------------------------------------

/// Error returned when an S-expression cannot be parsed or read.
#[derive(Clone, Debug, PartialEq, Eq)]
pub enum ParseError {
    /// Input ended while a string or list was still open.
    UnexpectedEof,
    /// A closing `)` had no matching opening `(`.
    UnmatchedParen { pos: usize },
    /// An invalid escape sequence was encountered inside a quoted string.
    BadEscape { pos: usize },
    /// An unexpected character was found at the given byte position.
    UnexpectedChar { ch: char, pos: usize },
    /// An I/O error occurred while reading a file.
    Io(String),
}

#[derive(Debug)]
enum Token {
    LParen,
    RParen,
    Atom(String),
    String(String),
}

/// A lexical token as a mathematical value.
pub enum Tok {
    LParen,
    RParen,
    Atom(Seq<char>),
    Str(Seq<char>),
}

spec fn tok_view(t: Token) -> Tok {
    match t {
        Token::LParen => Tok::LParen,
        Token::RParen => Tok::RParen,
        Token::Atom(s) => Tok::Atom(s@),
        Token::String(s) => Tok::Str(s@),
    }
}

spec fn toks_view(ts: Seq<Token>) -> Seq<Tok> {
    ts.map_values(|t: Token| tok_view(t))
}

/// Number of bytes in the UTF-8 encoding of `c`.
pub open spec fn utf8_len(c: char) -> nat {
    let u = c as u32;
    if u < 0x80 {
        1
    } else if u < 0x800 {
        2
    } else if u < 0x10000 {
        3
    } else {
        4
    }
}

/// Number of bytes in the UTF-8 encoding of `cs`.
pub open spec fn utf8_total(cs: Seq<char>) -> nat
    decreases cs.len(),
{
    if cs.len() == 0 {
        0
    } else {
        utf8_total(cs.drop_last()) + utf8_len(cs.last())
    }
}

/// Characters that end an unquoted atom.
pub open spec fn is_delim(c: char) -> bool {
    is_ws(c) || c == '(' || c == ')' || c == '"' || c == '#'
}

/// Length of the run of non-delimiters that starts `cs`.
pub open spec fn run_len(cs: Seq<char>) -> nat
    decreases cs.len(),
{
    if cs.len() == 0 || is_delim(cs[0]) {
        0
    } else {
        1 + run_len(cs.skip(1))
    }
}

/// Number of characters up to and including the first newline (all of `cs`
/// when there is none).
pub open spec fn line_len(cs: Seq<char>) -> nat
    decreases cs.len(),
{
    if cs.len() == 0 {
        0
    } else if cs[0] == '\n' {
        1
    } else {
        1 + line_len(cs.skip(1))
    }
}

/// The character an escape sequence `\c` stands for.
pub open spec fn unescape(c: char) -> Option<char> {
    if c == '\\' {
        Some('\\')
    } else if c == '"' {
        Some('"')
    } else if c == 'n' {
        Some('\n')
    } else if c == 't' {
        Some('\t')
    } else if c == 'r' {
        Some('\r')
    } else {
        None
    }
}

/// Executable [`unescape`].
pub fn unescape_char(c: char) -> (r: Option<char>)
    ensures
        r == unescape(c),
{
    if c == '\\' {
        Some('\\')
    } else if c == '"' {
        Some('"')
    } else if c == 'n' {
        Some('\n')
    } else if c == 't' {
        Some('\t')
    } else if c == 'r' {
        Some('\r')
    } else {
        None
    }
}

pub proof fn lemma_run_len(cs: Seq<char>)
    ensures
        run_len(cs) <= cs.len(),
        forall|k: int| 0 <= k < run_len(cs) ==> !is_delim(#[trigger] cs[k]),
        run_len(cs) < cs.len() ==> is_delim(cs[run_len(cs) as int]),
    decreases cs.len(),
{
    if cs.len() > 0 && !is_delim(cs[0]) {
        lemma_run_len(cs.skip(1));
        assert forall|k: int| 0 <= k < run_len(cs) implies !is_delim(#[trigger] cs[k]) by {
            if k > 0 {
                assert(cs[k] == cs.skip(1)[k - 1]);
            }
        }
    }
}

pub proof fn lemma_line_len(cs: Seq<char>)
    ensures
        line_len(cs) <= cs.len(),
        cs.len() > 0 ==> line_len(cs) >= 1,
    decreases cs.len(),
{
    if cs.len() > 0 && cs[0] != '\n' {
        lemma_line_len(cs.skip(1));
    }
}

/// The body of a quoted string (after its opening quote): the decoded
/// content and the number of characters consumed, closing quote included.
/// `base` is the byte position of `cs[0]` in the input.
pub open spec fn lex_str(cs: Seq<char>, base: nat) -> Result<(Seq<char>, nat), ParseError>
    decreases cs.len(),
{
    if cs.len() == 0 {
        Err(ParseError::UnexpectedEof)
    } else if cs[0] == '"' {
        Ok((Seq::empty(), 1))
    } else if cs[0] == '\\' {
        if cs.len() < 2 {
            Err(ParseError::UnexpectedEof)
        } else {
            match unescape(cs[1]) {
                None => Err(ParseError::BadEscape { pos: (base + 1) as usize }),
                Some(u) => match lex_str(cs.skip(2), base + 1 + utf8_len(cs[1])) {
                    Ok((s, n)) => Ok((seq![u] + s, n + 2)),
                    Err(e) => Err(e),
                },
            }
        }
    } else {
        match lex_str(cs.skip(1), base + utf8_len(cs[0])) {
            Ok((s, n)) => Ok((seq![cs[0]] + s, n + 1)),
            Err(e) => Err(e),
        }
    }
}

pub proof fn lemma_lex_str_len(cs: Seq<char>, base: nat)
    ensures
        lex_str(cs, base) matches Ok((s, n)) ==> 1 <= n <= cs.len(),
    decreases cs.len(),
{
    if cs.len() > 0 && cs[0] != '"' {
        if cs[0] == '\\' {
            if cs.len() >= 2 {
                lemma_lex_str_len(cs.skip(2), base + 1 + utf8_len(cs[1]));
            }
        } else {
            lemma_lex_str_len(cs.skip(1), base + utf8_len(cs[0]));
        }
    }
}

pub open spec fn cons_tok(t: Tok, r: Result<Seq<Tok>, ParseError>) -> Result<Seq<Tok>, ParseError> {
    match r {
        Ok(ts) => Ok(seq![t] + ts),
        Err(e) => Err(e),
    }
}

/// The tokens of `cs`, whose first character sits at byte `base` of the
/// input: parentheses, quoted strings (decoded), and unquoted atoms (maximal
/// runs of non-delimiters); whitespace and `#` comments up to the end of the
/// line are skipped.
pub open spec fn lex(cs: Seq<char>, base: nat) -> Result<Seq<Tok>, ParseError>
    decreases cs.len(),
{
    if cs.len() == 0 {
        Ok(Seq::empty())
    } else {
        let c = cs[0];
        if c == '(' {
            cons_tok(Tok::LParen, lex(cs.skip(1), base + 1))
        } else if c == ')' {
            cons_tok(Tok::RParen, lex(cs.skip(1), base + 1))
        } else if c == '"' {
            proof {
                lemma_lex_str_len(cs.skip(1), base + 1);
            }
            match lex_str(cs.skip(1), base + 1) {
                Err(e) => Err(e),
                Ok((s, n)) => cons_tok(
                    Tok::Str(s),
                    lex(cs.skip(1 + n as int), base + utf8_total(cs.take(1 + n as int))),
                ),
            }
        } else if c == '#' {
            proof {
                lemma_line_len(cs.skip(1));
            }
            let n = 1 + line_len(cs.skip(1));
            lex(cs.skip(n as int), base + utf8_total(cs.take(n as int)))
        } else if is_ws(c) {
            lex(cs.skip(1), base + utf8_len(c))
        } else {
            proof {
                lemma_run_len(cs.skip(1));
            }
            let n = 1 + run_len(cs.skip(1));
            cons_tok(Tok::Atom(cs.take(n as int)), lex(cs.skip(n as int), base + utf8_total(cs.take(n as int))))
        }
    }
}

pub proof fn lemma_utf8_total_concat(a: Seq<char>, b: Seq<char>)
    ensures
        utf8_total(a + b) == utf8_total(a) + utf8_total(b),
    decreases b.len(),
{
    if b.len() == 0 {
        assert(a + b =~= a);
    } else {
        lemma_utf8_total_concat(a, b.drop_last());
        assert((a + b).drop_last() =~= a + b.drop_last());
    }
}

/// Byte offsets of character positions: `utf8_total` of a prefix.
pub proof fn lemma_utf8_prefix(cs: Seq<char>, i: int, k: int)
    requires
        0 <= i <= k <= cs.len(),
    ensures
        utf8_total(cs.take(k)) == utf8_total(cs.take(i)) + utf8_total(cs.subrange(i, k)),
        utf8_total(cs.take(k)) <= utf8_total(cs),
{
    assert(cs.take(k) =~= cs.take(i) + cs.subrange(i, k));
    lemma_utf8_total_concat(cs.take(i), cs.subrange(i, k));
    assert(cs =~= cs.take(k) + cs.skip(k));
    lemma_utf8_total_concat(cs.take(k), cs.skip(k));
}

/// The UTF-8 encoding of `cs` is [`utf8_total`] bytes long.
pub proof fn lemma_encode_utf8_len(cs: Seq<char>)
    ensures
        vstd::utf8::encode_utf8(cs).len() == utf8_total(cs),
    decreases cs.len(),
{
    if cs.len() > 0 {
        let c = cs[0];
        let rest = cs.drop_first();
        lemma_encode_utf8_len(rest);
        assert(cs =~= seq![c] + rest);
        lemma_utf8_total_concat(seq![c], rest);
        lemma_utf8_one(c);
        vstd::utf8::char_is_scalar(c);
        assert(vstd::utf8::encode_scalar(c as u32).len() == utf8_len(c));
    }
}

pub proof fn lemma_utf8_one(c: char)
    ensures
        utf8_total(seq![c]) == utf8_len(c),
{
    assert(seq![c].drop_last() =~= Seq::<char>::empty());
    assert(utf8_total(Seq::<char>::empty()) == 0);
    assert(seq![c].last() == c);
}

/// `char::len_utf8`.
fn char_len_utf8(c: char) -> (n: usize)
    ensures
        n == utf8_len(c),
{
    let u = c as u32;
    if u < 0x80 {
        1
    } else if u < 0x800 {
        2
    } else if u < 0x10000 {
        3
    } else {
        4
    }
}

pub open spec fn prepend_toks(p: Seq<Tok>, r: Result<Seq<Tok>, ParseError>) -> Result<Seq<Tok>, ParseError> {
    match r {
        Ok(ts) => Ok(p + ts),
        Err(e) => Err(e),
    }
}

pub open spec fn shift_str(
    r: Result<(Seq<char>, nat), ParseError>,
    acc: Seq<char>,
    k: nat,
) -> Result<(Seq<char>, nat), ParseError> {
    match r {
        Ok((t, n)) => Ok((acc + t, n + k)),
        Err(e) => Err(e),
    }
}

/// Reads the body of a quoted string starting at `start` (just after the
/// opening quote), whose byte position is `b`.  Returns the decoded text and
/// the character and byte positions just after the closing quote.
fn lex_string_body(cs: &Vec<char>, start: usize, b: usize) -> (r: Result<(String, usize, usize), ParseError>)
    requires
        1 <= start <= cs@.len(),
        b == utf8_total(cs@.take(start as int)),
        utf8_total(cs@) <= usize::MAX,
    ensures
        match lex_str(cs@.skip(start as int), b as nat) {
            Ok((t, n)) => r matches Ok((s, e, be)) && s@ == t && e == start + n && be == utf8_total(cs@.take(e as int)),
            Err(err) => r == Err::<(String, usize, usize), ParseError>(err),
        },
{
    let mut s = String::new();
    let mut j = start;
    let mut bj = b;
    loop
        invariant
            start <= j <= cs@.len(),
            bj == utf8_total(cs@.take(j as int)),
            utf8_total(cs@) <= usize::MAX,
            lex_str(cs@.skip(start as int), b as nat) == shift_str(lex_str(cs@.skip(j as int), bj as nat), s@, (j - start) as nat),
        decreases cs@.len() - j,
    {
        let ghost rest = cs@.skip(j as int);
        if j >= cs.len() {
            return Err(ParseError::UnexpectedEof);
        }
        let c = cs[j];
        proof {
            lemma_utf8_prefix(cs@, j as int, j + 1);
            assert(cs@.subrange(j as int, j + 1) =~= seq![c]);
            lemma_utf8_one(c);
        }
        if c == '"' {
            proof {
                assert(cs@.take(j + 1) =~= cs@.take(j + 1));
                assert(s@ + Seq::<char>::empty() =~= s@);
            }
            return Ok((s, j + 1, bj + 1));
        } else if c == '\\' {
            if j + 1 >= cs.len() {
                return Err(ParseError::UnexpectedEof);
            }
            let e = cs[j + 1];
            let u: char = match unescape_char(e) {
                Some(u) => u,
                None => {
                    return Err(ParseError::BadEscape { pos: bj + 1 });
                },
            };
            proof {
                lemma_utf8_prefix(cs@, j as int, j + 2);
                assert(cs@.subrange(j as int, j + 2) =~= seq![c] + seq![e]);
                lemma_utf8_total_concat(seq![c], seq![e]);
                lemma_utf8_one(e);
                assert(rest.skip(2) =~= cs@.skip(j + 2));
                assert(rest[1] == e);
                let ghost old_s = s@;
                assert(old_s.push(u) + seq![] =~= old_s + seq![u]);
            }
            let ghost old_s = s@;
            push_char(&mut s, u);
            proof {
                assert forall|t: Seq<char>| #![trigger (seq![u] + t)] old_s + (seq![u] + t) == s@ + t by {
                    assert(old_s + (seq![u] + t) =~= s@ + t);
                }
            }
            j = j + 2;
            bj = bj + 1 + char_len_utf8(e);
        } else {
            proof {
                assert(rest.skip(1) =~= cs@.skip(j + 1));
            }
            let ghost old_s = s@;
            push_char(&mut s, c);
            proof {
                assert forall|t: Seq<char>| #![trigger (seq![c] + t)] old_s + (seq![c] + t) == s@ + t by {
                    assert(old_s + (seq![c] + t) =~= s@ + t);
                }
            }
            j = j + 1;
            bj = bj + char_len_utf8(c);
        }
    }
}

/// Skips a `#` comment whose `#` sits at `start`: returns the character and
/// byte positions just after the end of the line.
fn skip_comment(cs: &Vec<char>, start: usize, b: usize) -> (r: (usize, usize))
    requires
        start < cs@.len(),
        b == utf8_total(cs@.take(start as int)),
        utf8_total(cs@) <= usize::MAX,
    ensures
        r.0 == start + 1 + line_len(cs@.skip(start + 1)),
        r.1 == utf8_total(cs@.take(r.0 as int)),
{
    let len = cs.len();
    let mut j = start + 1;
    proof {
        lemma_utf8_prefix(cs@, start as int, start + 1);
        assert(cs@.subrange(start as int, start + 1) =~= seq![cs@[start as int]]);
        lemma_utf8_one(cs@[start as int]);
    }
    let mut bj = b + char_len_utf8(cs[start]);
    while j < cs.len()
        invariant
            start + 1 <= j <= cs@.len(),
            bj == utf8_total(cs@.take(j as int)),
            utf8_total(cs@) <= usize::MAX,
            line_len(cs@.skip(start + 1)) == (j - start - 1) + line_len(cs@.skip(j as int)),
        decreases cs@.len() - j,
    {
        let c = cs[j];
        proof {
            lemma_utf8_prefix(cs@, j as int, j + 1);
            assert(cs@.subrange(j as int, j + 1) =~= seq![c]);
            lemma_utf8_one(c);
            assert(cs@.skip(j as int).skip(1) =~= cs@.skip(j + 1));
        }
        j = j + 1;
        bj = bj + char_len_utf8(c);
        if c == '\n' {
            return (j, bj);
        }
    }
    (j, bj)
}

/// Scans an unquoted atom starting at `start`: returns the character and
/// byte positions just after it.
fn scan_atom(cs: &Vec<char>, start: usize, b: usize) -> (r: (usize, usize))
    requires
        start < cs@.len(),
        b == utf8_total(cs@.take(start as int)),
        utf8_total(cs@) <= usize::MAX,
    ensures
        r.0 == start + 1 + run_len(cs@.skip(start + 1)),
        r.1 == utf8_total(cs@.take(r.0 as int)),
{
    let len = cs.len();
    let mut j = start + 1;
    proof {
        lemma_utf8_prefix(cs@, start as int, start + 1);
        assert(cs@.subrange(start as int, start + 1) =~= seq![cs@[start as int]]);
        lemma_utf8_one(cs@[start as int]);
    }
    let mut bj = b + char_len_utf8(cs[start]);
    while j < cs.len()
        invariant
            start + 1 <= j <= cs@.len(),
            bj == utf8_total(cs@.take(j as int)),
            utf8_total(cs@) <= usize::MAX,
            run_len(cs@.skip(start + 1)) == (j - start - 1) + run_len(cs@.skip(j as int)),
        decreases cs@.len() - j,
    {
        let c = cs[j];
        if is_whitespace(c) || c == '(' || c == ')' || c == '"' || c == '#' {
            return (j, bj);
        }
        proof {
            lemma_utf8_prefix(cs@, j as int, j + 1);
            assert(cs@.subrange(j as int, j + 1) =~= seq![c]);
            lemma_utf8_one(c);
            assert(cs@.skip(j as int).skip(1) =~= cs@.skip(j + 1));
        }
        j = j + 1;
        bj = bj + char_len_utf8(c);
    }
    (j, bj)
}

/// Tokenize a KiCad S-expression string.
fn tokenize(input: &str) -> (r: Result<Vec<Token>, ParseError>)
    requires
        utf8_total(input@) <= usize::MAX,
    ensures
        match lex(input@, 0) {
            Ok(ts) => r matches Ok(v) && toks_view(v@) == ts,
            Err(e) => r == Err::<Vec<Token>, ParseError>(e),
        },
{
    let cs = chars_of(input);
    let mut tokens: Vec<Token> = Vec::new();
    let mut i: usize = 0;
    let mut b: usize = 0;
    assert(cs@.skip(0) =~= cs@);
    assert(toks_view(tokens@) =~= Seq::<Tok>::empty());
    assert(cs@.take(0) =~= Seq::<char>::empty());
    while i < cs.len()
        invariant
            cs@ == input@,
            i <= cs@.len(),
            b == utf8_total(cs@.take(i as int)),
            utf8_total(cs@) <= usize::MAX,
            lex(cs@, 0) == prepend_toks(toks_view(tokens@), lex(cs@.skip(i as int), b as nat)),
        decreases cs@.len() - i,
    {
        let ghost rest = cs@.skip(i as int);
        let ghost before = toks_view(tokens@);
        let c = cs[i];
        assert(rest[0] == c);
        proof {
            lemma_utf8_prefix(cs@, i as int, i + 1);
            assert(cs@.subrange(i as int, i + 1) =~= seq![c]);
            lemma_utf8_one(c);
            assert(rest.skip(1) =~= cs@.skip(i + 1));
        }
        if c == '(' {
            tokens.push(Token::LParen);
            proof {
                assert(toks_view(tokens@) =~= before.push(Tok::LParen));
                assert(before + (seq![Tok::LParen] + Seq::<Tok>::empty()) =~= before.push(Tok::LParen));
                assert forall|t: Seq<Tok>| #![trigger (seq![Tok::LParen] + t)] before + (seq![Tok::LParen] + t) == toks_view(tokens@) + t by {
                    assert(before + (seq![Tok::LParen] + t) =~= toks_view(tokens@) + t);
                }
            }
            i = i + 1;
            b = b + 1;
        } else if c == ')' {
            tokens.push(Token::RParen);
            proof {
                assert(toks_view(tokens@) =~= before.push(Tok::RParen));
                assert forall|t: Seq<Tok>| #![trigger (seq![Tok::RParen] + t)] before + (seq![Tok::RParen] + t) == toks_view(tokens@) + t by {
                    assert(before + (seq![Tok::RParen] + t) =~= toks_view(tokens@) + t);
                }
            }
            i = i + 1;
            b = b + 1;
        } else if c == '"' {
            proof {
                lemma_lex_str_len(cs@.skip(i + 1), (b + 1) as nat);
                assert(rest.skip(1) =~= cs@.skip(i + 1));
            }
            match lex_string_body(&cs, i + 1, b + 1) {
                Err(e) => {
                    return Err(e);
                },
                Ok((s, e, be)) => {
                    let ghost n = (e - (i + 1)) as nat;
                    proof {
                        assert(rest.skip(1 + n as int) =~= cs@.skip(e as int));
                        lemma_utf8_prefix(cs@, i as int, e as int);
                        assert(rest.take(1 + n as int) =~= cs@.subrange(i as int, e as int));
                    }
                    let ghost sv = s@;
                    tokens.push(Token::String(s));
                    proof {
                        assert(toks_view(tokens@) =~= before.push(Tok::Str(sv)));
                        assert forall|t: Seq<Tok>| #![trigger (seq![Tok::Str(sv)] + t)] before + (seq![Tok::Str(sv)] + t) == toks_view(tokens@) + t by {
                            assert(before + (seq![Tok::Str(sv)] + t) =~= toks_view(tokens@) + t);
                        }
                    }
                    i = e;
                    b = be;
                },
            }
        } else if c == '#' {
            let (e, be) = skip_comment(&cs, i, b);
            proof {
                lemma_line_len(cs@.skip(i + 1));
                let n = 1 + line_len(rest.skip(1));
                assert(rest.skip(n as int) =~= cs@.skip(e as int));
                lemma_utf8_prefix(cs@, i as int, e as int);
                assert(rest.take(n as int) =~= cs@.subrange(i as int, e as int));
            }
            i = e;
            b = be;
        } else if is_whitespace(c) {
            i = i + 1;
            b = b + char_len_utf8(c);
        } else {
            let (e, be) = scan_atom(&cs, i, b);
            proof {
                lemma_run_len(cs@.skip(i + 1));
            }
            let mut text: Vec<char> = Vec::new();
            let mut k = i;
            while k < e
                invariant
                    i <= k <= e <= cs@.len(),
                    text@ == cs@.subrange(i as int, k as int),
                decreases e - k,
            {
                text.push(cs[k]);
                k = k + 1;
                assert(text@ =~= cs@.subrange(i as int, k as int));
            }
            let a = string_of(&text);
            proof {
                lemma_run_len(cs@.skip(i + 1));
                let n = 1 + run_len(rest.skip(1));
                assert(rest.skip(n as int) =~= cs@.skip(e as int));
                lemma_utf8_prefix(cs@, i as int, e as int);
                assert(rest.take(n as int) =~= cs@.subrange(i as int, e as int));
            }
            let ghost av = a@;
            tokens.push(Token::Atom(a));
            proof {
                assert(toks_view(tokens@) =~= before.push(Tok::Atom(av)));
                assert forall|t: Seq<Tok>| #![trigger (seq![Tok::Atom(av)] + t)] before + (seq![Tok::Atom(av)] + t) == toks_view(tokens@) + t by {
                    assert(before + (seq![Tok::Atom(av)] + t) =~= toks_view(tokens@) + t);
                }
            }
            i = e;
            b = be;
        }
    }
    proof {
        assert(cs@.skip(i as int) =~= Seq::<char>::empty());
        assert(toks_view(tokens@) + Seq::<Tok>::empty() =~= toks_view(tokens@));
    }
    Ok(tokens)
}

/// Parses one expression starting at token `pos`: the tree and the
/// position just after it.
pub open spec fn parse_expr_spec(t: Seq<Tok>, pos: nat) -> Result<(Tree, nat), ParseError>
    decreases t.len() - pos, 0nat,
{
    if pos >= t.len() {
        Err(ParseError::UnexpectedEof)
    } else {
        match t[pos as int] {
            Tok::LParen => parse_items_spec(t, pos + 1, Seq::empty()),
            Tok::Atom(s) => Ok((Tree::Atom(s), pos + 1)),
            Tok::Str(s) => Ok((Tree::Atom(quoted(s)), pos + 1)),
            Tok::RParen => Err(ParseError::UnmatchedParen { pos: pos as usize }),
        }
    }
}

/// Parses the remaining children of a list whose children so far are `acc`,
/// up to and including its closing parenthesis.
pub open spec fn parse_items_spec(t: Seq<Tok>, pos: nat, acc: Seq<Tree>) -> Result<(Tree, nat), ParseError>
    decreases t.len() - pos, 1nat,
{
    if pos >= t.len() {
        Err(ParseError::UnexpectedEof)
    } else if t[pos as int] is RParen {
        Ok((Tree::List(acc), pos + 1))
    } else {
        match parse_expr_spec(t, pos) {
            Err(e) => Err(e),
            Ok((x, p)) => if pos < p <= t.len() {
                parse_items_spec(t, p, acc.push(x))
            } else {
                Err(ParseError::UnexpectedEof)
            },
        }
    }
}

/// What [`parse`] returns for the characters `cs`.
pub open spec fn parse_spec(cs: Seq<char>) -> Result<Tree, ParseError> {
    match lex(cs, 0) {
        Err(e) => Err(e),
        Ok(t) => match parse_expr_spec(t, 0) {
            Err(e) => Err(e),
            Ok((x, p)) => if p < t.len() {
                Err(ParseError::UnmatchedParen { pos: p as usize })
            } else {
                Ok(x)
            },
        },
    }
}

pub proof fn lemma_parse_advances(t: Seq<Tok>, pos: nat, acc: Seq<Tree>)
    ensures
        parse_expr_spec(t, pos) matches Ok((x, p)) ==> pos < p <= t.len(),
        parse_items_spec(t, pos, acc) matches Ok((x, p)) ==> pos < p <= t.len(),
    decreases t.len() - pos,
{
    if pos < t.len() {
        if t[pos as int] is LParen {
            lemma_parse_advances(t, pos + 1, Seq::empty());
        }
        if !(t[pos as int] is RParen) {
            if let Ok((x, p)) = parse_expr_spec(t, pos) {
                if pos < p <= t.len() {
                    lemma_parse_advances(t, p, acc.push(x));
                }
            }
        }
    }
}

struct Parser<'a> {
    tokens: &'a Vec<Token>,
    pos: usize,
}

impl<'a> Parser<'a> {
    fn parse_expr(&mut self) -> (r: Result<Sexpr, ParseError>)
        requires
            old(self).pos <= old(self).tokens@.len(),
        ensures
            final(self).tokens == old(self).tokens,
            match parse_expr_spec(toks_view(old(self).tokens@), old(self).pos as nat) {
                Ok((x, p)) => r matches Ok(e) && e@ == x && final(self).pos == p,
                Err(err) => r == Err::<Sexpr, ParseError>(err),
            },
        decreases old(self).tokens@.len() - old(self).pos, 1nat,
    {
        if self.pos >= self.tokens.len() {
            return Err(ParseError::UnexpectedEof);
        }
        let ghost tv = toks_view(self.tokens@);
        assert(tv[self.pos as int] == tok_view(self.tokens@[self.pos as int]));
        match &self.tokens[self.pos] {
            Token::LParen => self.parse_list(),
            Token::Atom(s) => {
                self.pos = self.pos + 1;
                Ok(Sexpr::Atom(s.clone()))
            },
            Token::String(s) => {
                self.pos = self.pos + 1;
                Ok(Sexpr::str(s.as_str()))
            },
            Token::RParen => Err(ParseError::UnmatchedParen { pos: self.pos }),
        }
    }

    fn parse_list(&mut self) -> (r: Result<Sexpr, ParseError>)
        requires
            old(self).pos < old(self).tokens@.len(),
            old(self).tokens@[old(self).pos as int] is LParen,
        ensures
            final(self).tokens == old(self).tokens,
            match parse_expr_spec(toks_view(old(self).tokens@), old(self).pos as nat) {
                Ok((x, p)) => r matches Ok(e) && e@ == x && final(self).pos == p,
                Err(err) => r == Err::<Sexpr, ParseError>(err),
            },
        decreases old(self).tokens@.len() - old(self).pos, 0nat,
    {
        let ghost tv = toks_view(self.tokens@);
        let ghost p0 = self.pos;
        assert(tv[p0 as int] == tok_view(self.tokens@[p0 as int]));
        let n = self.tokens.len();
        self.pos = self.pos + 1;
        let mut children: Vec<Sexpr> = Vec::new();
        assert(view_all(children@) =~= Seq::<Tree>::empty());
        loop
            invariant
                self.tokens == old(self).tokens,
                tv == toks_view(self.tokens@),
                p0 == old(self).pos,
                p0 < self.pos <= self.tokens@.len(),
                parse_expr_spec(tv, p0 as nat) == parse_items_spec(tv, self.pos as nat, view_all(children@)),
            decreases self.tokens@.len() - self.pos,
        {
            if self.pos >= self.tokens.len() {
                return Err(ParseError::UnexpectedEof);
            }
            assert(tv[self.pos as int] == tok_view(self.tokens@[self.pos as int]));
            match &self.tokens[self.pos] {
                Token::RParen => {
                    self.pos = self.pos + 1;
                    return Ok(Sexpr::List(children));
                },
                _ => {},
            }
            let ghost q = self.pos;
            proof {
                lemma_parse_advances(tv, q as nat, view_all(children@));
            }
            let e = self.parse_expr()?;
            proof {
                lemma_view_all_push(children@, e);
            }
            children.push(e);
        }
    }
}

/// Parse a KiCad S-expression string into an [`Sexpr`] tree.
pub fn parse(input: &str) -> (r: Result<Sexpr, ParseError>)
    ensures
        match parse_spec(input@) {
            Ok(x) => r matches Ok(e) && e@ == x,
            Err(err) => r == Err::<Sexpr, ParseError>(err),
        },
{
    // The input's UTF-8 bytes lie in memory as one slice, so their number,
    // which bounds every byte position the lexer reports, fits in `usize`.
    let bytes = input.as_bytes();
    proof {
        lemma_encode_utf8_len(input@);
        assert(bytes@.len() == bytes.len());
    }
    let tokens = tokenize(input)?;
    let mut parser = Parser { tokens: &tokens, pos: 0 };
    let expr = parser.parse_expr()?;
    if parser.pos < tokens.len() {
        return Err(ParseError::UnmatchedParen { pos: parser.pos });
    }
    Ok(expr)
}

/// A copy of a node.
pub fn copy_sexpr(node: &Sexpr) -> (r: Sexpr)
    ensures
        r@ == node@,
    decreases node@,
{
    match node {
        Sexpr::List(cs) => {
            proof {
                lemma_view_all(cs@);
            }
            let ghost ts = view_all(cs@);
            let mut out: Vec<Sexpr> = Vec::new();
            let mut i: usize = 0;
            while i < cs.len()
                invariant
                    i <= cs@.len(),
                    *node == Sexpr::List(*cs),
                    ts == view_all(cs@),
                    ts.len() == cs@.len(),
                    forall|k: int| 0 <= k < cs@.len() ==> #[trigger] ts[k] == cs@[k]@,
                    out@.len() == i,
                    forall|k: int| 0 <= k < i ==> #[trigger] out@[k]@ == cs@[k]@,
                decreases cs@.len() - i,
            {
                proof {
                    assert(node@ == Tree::List(ts));
                    assert(decreases_to!(node@ => node@->List_0));
                    assert(decreases_to!(ts => ts[i as int]));
                    assert(decreases_to!(node@ => ts[i as int]));
                }
                let c = copy_sexpr(&cs[i]);
                out.push(c);
                i = i + 1;
            }
            proof {
                lemma_view_all(out@);
                assert forall|k: int| 0 <= k < cs@.len() implies view_all(out@)[k] == view_all(cs@)[k] by {
                    assert(out@[k]@ == cs@[k]@);
                }
                assert(view_all(out@) =~= view_all(cs@));
            }
            Sexpr::List(out)
        },
        Sexpr::Atom(s) => Sexpr::Atom(s.clone()),
        Sexpr::Raw(s) => Sexpr::Raw(s.clone()),
    }
}

} // verus!
