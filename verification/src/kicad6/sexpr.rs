//! Minimal deterministic S-expression builder for KiCad 6 files, and
//! deterministic UUIDs.

use vstd::prelude::*;

use vstd::string::StringSliceAdditionalSpecFns;
use vstd::utf8::encode_utf8;

use crate::text::{chars_of, push_char, push_str};
use crate::tree::{
    is_leaf, leaf_text, leaves_of, lemma_leaves_push, lemma_rest_push,
    lemma_spaced_push, render, rest_text, spaced, spaces, Tree,
};

verus! {

broadcast use vstd::string::group_string_axioms;

/// A single S-expression node.
#[derive(Debug, PartialEq)]
pub enum Sexpr {
    /// A parenthesised list of child nodes.
    List(Vec<Sexpr>),
    /// An atom printed exactly as stored (caller is responsible for quoting).
    Atom(String),
    /// A raw fragment printed exactly as stored, bypassing normal formatting.
    Raw(String),
}

/// The models of a sequence of nodes.
pub open spec fn view_all(s: Seq<Sexpr>) -> Seq<Tree>
    decreases s,
{
    if s.len() == 0 {
        Seq::empty()
    } else {
        view_all(s.drop_last()).push(view_one(s.last()))
    }
}

/// The model of one node.
pub open spec fn view_one(x: Sexpr) -> Tree
    decreases x,
{
    match x {
        Sexpr::List(v) => Tree::List(view_all(v@)),
        Sexpr::Atom(s) => Tree::Atom(s@),
        Sexpr::Raw(s) => Tree::Raw(s@),
    }
}

impl View for Sexpr {
    type V = Tree;

    open spec fn view(&self) -> Tree {
        view_one(*self)
    }
}

pub proof fn lemma_view_all(s: Seq<Sexpr>)
    ensures
        view_all(s).len() == s.len(),
        forall|i: int| 0 <= i < s.len() ==> #[trigger] view_all(s)[i] == view_one(s[i]),
    decreases s.len(),
{
    if s.len() > 0 {
        lemma_view_all(s.drop_last());
    }
}

/// The escape sequence written for one character of a quoted string.
pub open spec fn escape_char(c: char) -> Seq<char> {
    if c == '\\' {
        seq!['\\', '\\']
    } else if c == '"' {
        seq!['\\', '"']
    } else {
        seq![c]
    }
}

/// `s` with `\` and `"` escaped.
pub open spec fn escape(s: Seq<char>) -> Seq<char>
    decreases s.len(),
{
    if s.len() == 0 {
        Seq::empty()
    } else {
        escape(s.drop_last()) + escape_char(s.last())
    }
}

/// The text of a quoted string atom holding `s`.
pub open spec fn quoted(s: Seq<char>) -> Seq<char> {
    seq!['"'] + escape(s) + seq!['"']
}

/// Escapes `s` for use inside a quoted string.
pub fn escape_str(s: &str) -> (r: String)
    ensures
        r@ == escape(s@),
{
    let cs = chars_of(s);
    let mut out = String::new();
    let mut i: usize = 0;
    while i < cs.len()
        invariant
            i <= cs@.len(),
            cs@ == s@,
            out@ == escape(cs@.take(i as int)),
        decreases cs@.len() - i,
    {
        let c = cs[i];
        let ghost before = out@;
        if c == '\\' {
            push_char(&mut out, '\\');
            push_char(&mut out, '\\');
        } else if c == '"' {
            push_char(&mut out, '\\');
            push_char(&mut out, '"');
        } else {
            push_char(&mut out, c);
        }
        assert(out@ =~= before + escape_char(c));
        i = i + 1;
        assert(cs@.take(i as int).drop_last() =~= cs@.take(i - 1));
    }
    assert(cs@.take(i as int) =~= cs@);
    out
}

impl Sexpr {
    /// Construct a list from child nodes.
    pub fn list(children: Vec<Sexpr>) -> (r: Sexpr)
        ensures
            r == Sexpr::List(children),
    {
        Sexpr::List(children)
    }

    /// Construct an atom.
    pub fn atom(s: &str) -> (r: Sexpr)
        ensures
            r@ == Tree::Atom(s@),
    {
        Sexpr::Atom(s.to_owned())
    }

    /// Construct a quoted string atom: `"s"`, escaping `"` and `\`.
    pub fn str(s: &str) -> (r: Sexpr)
        ensures
            r@ == Tree::Atom(quoted(s@)),
    {
        let mut out = String::new();
        push_char(&mut out, '"');
        let e = escape_str(s);
        push_str(&mut out, e.as_str());
        push_char(&mut out, '"');
        assert(out@ =~= quoted(s@));
        Sexpr::Atom(out)
    }

    /// Construct a raw node.
    pub fn raw(s: &str) -> (r: Sexpr)
        ensures
            r@ == Tree::Raw(s@),
    {
        Sexpr::Raw(s.to_owned())
    }

    /// True if this node is an atom or raw text (i.e. has no children).
    pub fn is_leaf(&self) -> (b: bool)
        ensures
            b == is_leaf(self@),
    {
        match self {
            Sexpr::List(_) => false,
            _ => true,
        }
    }
}

pub proof fn lemma_view_all_push(s: Seq<Sexpr>, x: Sexpr)
    ensures
        view_all(s.push(x)) == view_all(s).push(view_one(x)),
{
    assert(s.push(x).drop_last() =~= s);
}

impl Sexpr {
    /// A deep copy of this node.
    pub fn copy(&self) -> (r: Sexpr)
        ensures
            r@ == self@,
        decreases self,
    {
        match self {
            Sexpr::Atom(s) => Sexpr::Atom(s.clone()),
            Sexpr::Raw(s) => Sexpr::Raw(s.clone()),
            Sexpr::List(children) => {
                let mut out: Vec<Sexpr> = Vec::new();
                let mut i: usize = 0;
                while i < children.len()
                    invariant
                        i <= children@.len(),
                        *self == Sexpr::List(*children),
                        self@ == Tree::List(view_all(children@)),
                        view_all(out@) == view_all(children@.take(i as int)),
                    decreases children@.len() - i,
                {
                    let c0 = &children[i];
                    assert(*c0 == children@[i as int]);
                    let c = c0.copy();
                    proof {
                        lemma_view_all_push(out@, c);
                        lemma_view_all_push(children@.take(i as int), children@[i as int]);
                        assert(children@.take(i + 1) =~= children@.take(i as int).push(children@[i as int]));
                    }
                    out.push(c);
                    i = i + 1;
                }
                assert(children@.take(i as int) =~= children@);
                Sexpr::List(out)
            },
        }
    }

    /// Appends the printed form of this node at the indentation `pad` (a
    /// string of spaces).
    pub fn write_into(&self, out: &mut String, pad: &str)
        requires
            pad@ == spaces(pad@.len()),
        ensures
            final(out)@ == old(out)@ + render(self@, pad@.len()),
        decreases self,
    {
        match self {
            Sexpr::Atom(s) => push_str(out, s.as_str()),
            Sexpr::Raw(s) => push_str(out, s.as_str()),
            Sexpr::List(children) => {
                let ghost o0 = out@;
                let ghost cs = view_all(children@);
                proof {
                    lemma_view_all(children@);
                }
                push_char(out, '(');
                let ghost o1 = out@;
                let mut count: usize = 0;
                let mut i: usize = 0;
                while i < children.len()
                    invariant
                        i <= children@.len(),
                        cs == view_all(children@),
                        cs.len() == children@.len(),
                        forall|k: int| 0 <= k < cs.len() ==> #[trigger] cs[k] == view_one(children@[k]),
                        out@ == o1 + spaced(leaves_of(cs.take(i as int))),
                        count == leaves_of(cs.take(i as int)).len(),
                        count <= i,
                    decreases children@.len() - i,
                {
                    let c = &children[i];
                    proof {
                        assert(cs.take(i + 1) =~= cs.take(i as int).push(cs[i as int]));
                        lemma_leaves_push(cs.take(i as int), cs[i as int]);
                        lemma_spaced_push(leaves_of(cs.take(i as int)), leaf_text(cs[i as int]));
                    }
                    match c {
                        Sexpr::List(_) => {},
                        Sexpr::Atom(t) => {
                            if count > 0 {
                                push_char(out, ' ');
                            }
                            push_str(out, t.as_str());
                            count = count + 1;
                        },
                        Sexpr::Raw(t) => {
                            if count > 0 {
                                push_char(out, ' ');
                            }
                            push_str(out, t.as_str());
                            count = count + 1;
                        },
                    }
                    i = i + 1;
                }
                assert(cs.take(i as int) =~= cs);
                let ghost o2 = out@;
                let mut child_pad = pad.to_owned();
                push_char(&mut child_pad, ' ');
                push_char(&mut child_pad, ' ');
                assert(child_pad@ =~= spaces(pad@.len() + 2));
                let ghost child_indent = pad@.len() + 2;
                let mut j: usize = 0;
                assert(cs.take(0) =~= Seq::<Tree>::empty());
                while j < children.len()
                    invariant
                        j <= children@.len(),
                        cs == view_all(children@),
                        cs.len() == children@.len(),
                        forall|k: int| 0 <= k < cs.len() ==> #[trigger] cs[k] == view_one(children@[k]),
                        self@ == Tree::List(cs),
                        *self == Sexpr::List(*children),
                        child_indent == pad@.len() + 2,
                        child_pad@ == spaces(child_indent),
                        out@ == o2 + rest_text(cs.take(j as int), child_indent),
                    decreases children@.len() - j,
                {
                    let c = &children[j];
                    proof {
                        assert(cs.take(j + 1) =~= cs.take(j as int).push(cs[j as int]));
                        lemma_rest_push(cs.take(j as int), cs[j as int], child_indent);
                    }
                    if !c.is_leaf() {
                        let ghost before = out@;
                        push_char(out, '\n');
                        push_str(out, child_pad.as_str());
                        c.write_into(out, child_pad.as_str());
                        assert(out@ =~= before + (seq!['\n'] + spaces(child_indent) + render(cs[j as int], child_indent)));
                    } else {
                        assert(out@ =~= out@ + Seq::<char>::empty());
                    }
                    j = j + 1;
                }
                assert(cs.take(j as int) =~= cs);
                push_char(out, ')');
                assert(out@ =~= o0 + render(self@, pad@.len()));
            },
        }
    }

    /// The printed form of this node, as a `Display` impl would write it.
    pub fn to_string(&self) -> (r: String)
        ensures
            r@ == render(self@, 0),
    {
        let mut out = String::new();
        let pad = String::new();
        assert(pad@ =~= spaces(0));
        self.write_into(&mut out, pad.as_str());
        out
    }
}

/// Appends a node to a list of children.
pub fn push_node(v: &mut Vec<Sexpr>, x: Sexpr)
    ensures
        final(v)@ == old(v)@.push(x),
        view_all(final(v)@) == view_all(old(v)@).push(x@),
{
    proof {
        lemma_view_all_push(v@, x);
    }
    v.push(x);
}

/// `(tag child…)`: a list whose head is the atom `tag`.
pub fn tagged(tag: &str, rest: Vec<Sexpr>) -> (r: Sexpr)
    ensures
        r@ == Tree::List(seq![Tree::Atom(tag@)] + view_all(rest@)),
{
    let mut v = rest;
    let ghost r0 = v@;
    let head = Sexpr::atom(tag);
    v.insert(0, head);
    proof {
        lemma_view_all(v@);
        lemma_view_all(r0);
        assert(view_all(v@) =~= seq![Tree::Atom(tag@)] + view_all(r0));
    }
    Sexpr::list(v)
}

/// `Tree` of a quoted string atom.
pub open spec fn str_t(s: Seq<char>) -> Tree {
    Tree::Atom(quoted(s))
}

/// `Tree` of `(key "val")`.
pub open spec fn kv_t(key: Seq<char>, val: Seq<char>) -> Tree {
    Tree::List(seq![Tree::Atom(key), str_t(val)])
}

/// Convenience: `(key "val")`.
pub fn kv(key: &str, val: &str) -> (r: Sexpr)
    ensures
        r@ == Tree::List(seq![Tree::Atom(key@), Tree::Atom(quoted(val@))]),
{
    let mut v: Vec<Sexpr> = Vec::new();
    v.push(Sexpr::atom(key));
    v.push(Sexpr::str(val));
    proof {
        lemma_view_all(v@);
        assert(view_all(v@) =~= seq![Tree::Atom(key@), Tree::Atom(quoted(val@))]);
    }
    Sexpr::list(v)
}

// ---------------------------------------------------------------------------
// Deterministic identifiers
// ---------------------------------------------------------------------------

pub const FNV_OFFSET: u64 = 0xcbf29ce484222325;

pub const FNV_PRIME: u64 = 0x100000001b3;

/// The salt of the second half of a deterministic UUID.
pub const UUID_SALT: u64 = 0x6c14_4f3a_7af5_c5d2;

/// 64-bit FNV-1a over `bytes`, starting from the state `h0`.
pub open spec fn fnv_spec(bytes: Seq<u8>, h0: u64) -> u64
    decreases bytes.len(),
{
    if bytes.len() == 0 {
        h0
    } else {
        (fnv_spec(bytes.drop_last(), h0) ^ (bytes.last() as u64)).wrapping_mul(FNV_PRIME)
    }
}

/// FNV-1a hash of the UTF-8 bytes of `seed`, with the offset basis mixed
/// with `salt`.
pub fn fnv1a_64(seed: &str, salt: u64) -> (h: u64)
    ensures
        h == fnv_spec(encode_utf8(seed@), FNV_OFFSET ^ salt),
{
    let bytes = seed.as_bytes();
    let mut hash: u64 = FNV_OFFSET ^ salt;
    let mut i: usize = 0;
    while i < bytes.len()
        invariant
            i <= bytes@.len(),
            bytes@ == encode_utf8(seed@),
            hash == fnv_spec(bytes@.take(i as int), FNV_OFFSET ^ salt),
        decreases bytes@.len() - i,
    {
        let b = bytes[i];
        hash = hash ^ (b as u64);
        hash = hash.wrapping_mul(FNV_PRIME);
        i = i + 1;
        assert(bytes@.take(i as int).drop_last() =~= bytes@.take(i - 1));
    }
    assert(bytes@.take(i as int) =~= bytes@);
    hash
}

/// Lower-case hexadecimal digit for a value below 16.
pub open spec fn hex_digit(n: u64) -> char {
    if n < 10 {
        (('0' as u64) + n) as char
    } else {
        (('a' as u64) + n - 10) as char
    }
}

/// The 16 lower-case hexadecimal digits of `h`, most significant first.
pub open spec fn hex_of(h: u64) -> Seq<char> {
    Seq::new(16, |k: int| hex_digit((h >> ((60 - 4 * k) as u64)) & 0xf))
}

/// The 8-4-4-4-12 text of two 64-bit halves.
pub open spec fn uuid_text(h1: u64, h2: u64) -> Seq<char> {
    let a = hex_of(h1);
    let b = hex_of(h2);
    a.subrange(0, 8) + seq!['-'] + a.subrange(8, 12) + seq!['-'] + a.subrange(12, 16) + seq!['-']
        + b.subrange(0, 4) + seq!['-'] + b.subrange(4, 16)
}

/// What [`deterministic_uuid`] returns for `seed`.
pub open spec fn uuid_spec(seed: Seq<char>) -> Seq<char> {
    uuid_text(
        fnv_spec(encode_utf8(seed), FNV_OFFSET ^ 0),
        fnv_spec(encode_utf8(seed), FNV_OFFSET ^ UUID_SALT),
    )
}

proof fn lemma_nibble(h: u64, sh: u64)
    ensures
        (h >> sh) & 0xf < 16,
{
    assert((h >> sh) & 0xf < 16) by (bit_vector);
}

fn hex_char(n: u64) -> (c: char)
    requires
        n < 16,
    ensures
        c == hex_digit(n),
{
    if n < 10 {
        ((n as u8) + 48) as char
    } else {
        ((n as u8) + 87) as char
    }
}

/// Appends the hexadecimal digits `from..to` of `h`.
fn push_hex(out: &mut String, h: u64, from: usize, to: usize)
    requires
        from <= to <= 16,
    ensures
        final(out)@ == old(out)@ + hex_of(h).subrange(from as int, to as int),
{
    let ghost o = out@;
    let mut k = from;
    while k < to
        invariant
            from <= k <= to <= 16,
            out@ == o + hex_of(h).subrange(from as int, k as int),
        decreases to - k,
    {
        let sh: u64 = (60 - 4 * k) as u64;
        let n = (h >> sh) & 0xf;
        proof {
            lemma_nibble(h, sh);
        }
        push_char(out, hex_char(n));
        k = k + 1;
        assert(hex_of(h).subrange(from as int, k as int) =~= hex_of(h).subrange(from as int, k - 1).push(hex_of(h)[k - 1]));
    }
}

/// Deterministic UUID-formatted string (8-4-4-4-12 hex) derived from `seed`.
pub fn deterministic_uuid(seed: &str) -> (r: String)
    ensures
        r@ == uuid_spec(seed@),
{
    let h1 = fnv1a_64(seed, 0);
    let h2 = fnv1a_64(seed, UUID_SALT);
    let mut out = String::new();
    push_hex(&mut out, h1, 0, 8);
    push_char(&mut out, '-');
    push_hex(&mut out, h1, 8, 12);
    push_char(&mut out, '-');
    push_hex(&mut out, h1, 12, 16);
    push_char(&mut out, '-');
    push_hex(&mut out, h2, 0, 4);
    push_char(&mut out, '-');
    push_hex(&mut out, h2, 4, 16);
    assert(out@ =~= uuid_text(h1, h2));
    out
}

/// A deterministic UUID is 36 characters long: lower-case hexadecimal
/// digits with dashes at positions 8, 13, 18 and 23.
pub proof fn law_uuid_shape(seed: Seq<char>)
    ensures
        uuid_spec(seed).len() == 36,
        forall|i: int|
            0 <= i < 36 ==> (#[trigger] uuid_spec(seed)[i] == '-' <==> (i == 8 || i == 13 || i == 18 || i == 23)),
        forall|i: int|
            0 <= i < 36 && i != 8 && i != 13 && i != 18 && i != 23 ==> {
                let c = #[trigger] uuid_spec(seed)[i];
                ('0' <= c <= '9') || ('a' <= c <= 'f')
            },
{
    let h1 = fnv_spec(encode_utf8(seed), FNV_OFFSET ^ 0);
    let h2 = fnv_spec(encode_utf8(seed), FNV_OFFSET ^ UUID_SALT);
    let u = uuid_spec(seed);
    assert forall|k: int, h: u64| 0 <= k < 16 implies {
        let c = #[trigger] hex_of(h)[k];
        ('0' <= c <= '9') || ('a' <= c <= 'f')
    } by {
        lemma_nibble(h, (60 - 4 * k) as u64);
    }
    assert forall|i: int| 0 <= i < 36 implies (#[trigger] u[i] == '-' <==> (i == 8 || i == 13 || i == 18 || i == 23)) && (i != 8 && i != 13 && i != 18 && i != 23 ==> ('0' <= u[i] <= '9') || ('a' <= u[i] <= 'f')) by {
        if i < 8 {
            assert(u[i] == hex_of(h1)[i]);
        } else if i == 8 {
        } else if i < 13 {
            assert(u[i] == hex_of(h1)[i - 1]);
        } else if i == 13 {
        } else if i < 18 {
            assert(u[i] == hex_of(h1)[i - 2]);
        } else if i == 18 {
        } else if i < 23 {
            assert(u[i] == hex_of(h2)[i - 19]);
        } else if i == 23 {
        } else {
            assert(u[i] == hex_of(h2)[i - 20]);
        }
    }
}

} // verus!
