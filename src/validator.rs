//! Reading a function's signature off one line of C or Rust source.
use vstd::prelude::*;
use crate::bounds::{split, split_at_char};
use crate::types::FunctionSignature;

verus! {

/// Unicode's `White_Space` characters, which `char::is_whitespace` accepts.
pub open spec fn whitespace(c: char) -> bool {
    let u = c as u32;
    (0x9 <= u <= 0xd) || u == 0x20 || u == 0x85 || u == 0xa0 || u == 0x1680 || (0x2000 <= u <= 0x200a)
        || u == 0x2028 || u == 0x2029 || u == 0x202f || u == 0x205f || u == 0x3000
}

fn is_space(c: char) -> (r: bool)
    ensures
        r == whitespace(c),
{
    let u = c as u32;
    (0x9 <= u && u <= 0xd) || u == 0x20 || u == 0x85 || u == 0xa0 || u == 0x1680 || (0x2000 <= u && u <= 0x200a)
        || u == 0x2028 || u == 0x2029 || u == 0x202f || u == 0x205f || u == 0x3000
}

pub open spec fn trim_start(s: Seq<char>) -> Seq<char>
    decreases s.len(),
{
    if s.len() > 0 && whitespace(s[0]) { trim_start(s.drop_first()) } else { s }
}

pub open spec fn trim_end(s: Seq<char>) -> Seq<char>
    decreases s.len(),
{
    if s.len() > 0 && whitespace(s.last()) { trim_end(s.drop_last()) } else { s }
}

/// `s` without leading and trailing white space.
pub open spec fn trim(s: Seq<char>) -> Seq<char> {
    trim_end(trim_start(s))
}

pub open spec fn find_from(s: Seq<char>, pat: Seq<char>, i: int) -> Option<int>
    decreases s.len() + 1 - i,
{
    if i < 0 || i + pat.len() > s.len() {
        None
    } else if s.subrange(i, i + pat.len()) == pat {
        Some(i)
    } else {
        find_from(s, pat, i + 1)
    }
}

/// Where `pat` first occurs in `s`.
pub open spec fn find(s: Seq<char>, pat: Seq<char>) -> Option<int> {
    find_from(s, pat, 0)
}

fn substring(s: &str, from: usize, to: usize) -> (r: String)
    requires
        from <= to <= s@.len(),
    ensures
        r@ == s@.subrange(from as int, to as int),
{
    String::from_str(s.substring_char(from, to))
}

/// `s` without leading and trailing white space.
pub fn trim_str(s: &str) -> (r: String)
    ensures
        r@ == trim(s@),
{
    let n = s.unicode_len();
    let mut lo: usize = 0;
    assert(s@.subrange(0, n as int) =~= s@);
    while lo < n && is_space(s.get_char(lo))
        invariant
            n == s@.len(),
            lo <= n,
            trim_start(s@) == trim_start(s@.subrange(lo as int, n as int)),
        decreases n - lo,
    {
        assert(s@.subrange(lo as int, n as int).drop_first() =~= s@.subrange(lo + 1, n as int));
        lo += 1;
    }
    let mut hi: usize = n;
    while hi > lo && is_space(s.get_char(hi - 1))
        invariant
            n == s@.len(),
            lo <= hi <= n,
            trim(s@) == trim_end(s@.subrange(lo as int, hi as int)),
        decreases hi - lo,
    {
        assert(s@.subrange(lo as int, hi as int).drop_last() =~= s@.subrange(lo as int, hi - 1));
        hi -= 1;
    }
    substring(s, lo, hi)
}

/// Where `pat` first occurs in `s`.
pub fn find_str(s: &str, pat: &str) -> (r: Option<usize>)
    ensures
        r matches Some(k) ==> find(s@, pat@) == Some(k as int),
        r is None ==> find(s@, pat@) is None,
{
    let n = s.unicode_len();
    let m = pat.unicode_len();
    if m > n {
        return None;
    }
    let mut i: usize = 0;
    while i <= n - m
        invariant
            n == s@.len(),
            m == pat@.len(),
            m <= n,
            i <= n - m + 1,
            find(s@, pat@) == find_from(s@, pat@, i as int),
        decreases n - i,
    {
        let mut j: usize = 0;
        let mut same = true;
        assert(s@.subrange(i as int, i as int) =~= pat@.subrange(0, 0));
        while j < m
            invariant
                n == s@.len(),
                m == pat@.len(),
                i + m <= n,
                j <= m,
                same == (s@.subrange(i as int, i + j) == pat@.subrange(0, j as int)),
            decreases m - j,
        {
            let eq = s.get_char(i + j) == pat.get_char(j);
            proof {
                if same && eq {
                    assert(s@.subrange(i as int, i + j + 1) =~= pat@.subrange(0, j + 1));
                }
                if !eq {
                    assert(s@.subrange(i as int, i + j + 1)[j as int] != pat@.subrange(0, j + 1)[j as int]);
                }
                if !same {
                    if s@.subrange(i as int, i + j + 1) == pat@.subrange(0, j + 1) {
                        assert(s@.subrange(i as int, i + j) =~= s@.subrange(i as int, i + j + 1).subrange(0, j as int));
                        assert(pat@.subrange(0, j as int) =~= pat@.subrange(0, j + 1).subrange(0, j as int));
                    }
                }
            }
            same = same && eq;
            j += 1;
        }
        assert(pat@.subrange(0, m as int) =~= pat@);
        if same {
            return Some(i);
        }
        i += 1;
    }
    None
}

/// The type in one Rust parameter `name: type`, `unknown` without a colon.
pub open spec fn rust_param_type(p: Seq<char>) -> Seq<char> {
    match find(p, seq![':']) {
        Some(k) => trim(p.subrange(k + 1, p.len() as int)),
        None => "unknown"@,
    }
}

/// The types of the non-empty parameters among `pieces`, in order.
pub open spec fn rust_params(pieces: Seq<Seq<char>>) -> Seq<Seq<char>>
    decreases pieces.len(),
{
    if pieces.len() == 0 {
        seq![]
    } else {
        let rest = rust_params(pieces.drop_last());
        if trim(pieces.last()).len() == 0 { rest } else { rest.push(rust_param_type(trim(pieces.last()))) }
    }
}

pub open spec fn first_word(t: Seq<char>) -> Seq<char>
    decreases t.len(),
{
    if t.len() == 0 || whitespace(t[0]) { seq![] } else { seq![t[0]] + first_word(t.drop_first()) }
}

/// The return type after `->`: its first word, `unknown` when there is none,
/// and `()` without an arrow.
pub open spec fn rust_return_type(line: Seq<char>) -> Seq<char> {
    match find(line, "->"@) {
        Some(k) => if trim(line.subrange(k + 2, line.len() as int)).len() == 0 {
            "unknown"@
        } else {
            first_word(trim(line.subrange(k + 2, line.len() as int)))
        },
        None => "()"@,
    }
}

/// The parameter text between the first `(` and the first `)`, when the
/// line has both in that order.
pub open spec fn param_text(line: Seq<char>) -> Option<Seq<char>> {
    match (find(line, seq!['(']), find(line, seq![')'])) {
        (Some(a), Some(b)) => if a < b { Some(line.subrange(a + 1, b)) } else { None },
        _ => None,
    }
}

proof fn lemma_find_bounds(s: Seq<char>, pat: Seq<char>, i: int)
    ensures
        find_from(s, pat, i) matches Some(k) ==> i <= k && k + pat.len() <= s.len()
            && s.subrange(k, k + pat.len()) == pat,
    decreases s.len() + 1 - i,
{
    if !(i < 0 || i + pat.len() > s.len()) && s.subrange(i, i + pat.len()) != pat {
        lemma_find_bounds(s, pat, i + 1);
    }
}

fn first_word_str(t: &str) -> (r: String)
    ensures
        r@ == first_word(t@),
{
    let n = t.unicode_len();
    let mut k: usize = 0;
    assert(t@.subrange(0, n as int) =~= t@);
    assert(t@.subrange(0, 0) + t@ =~= t@);
    while k < n && !is_space(t.get_char(k))
        invariant
            n == t@.len(),
            k <= n,
            first_word(t@) == t@.subrange(0, k as int) + first_word(t@.subrange(k as int, n as int)),
        decreases n - k,
    {
        assert(t@.subrange(k as int, n as int).drop_first() =~= t@.subrange(k + 1, n as int));
        assert(t@.subrange(0, k + 1) =~= t@.subrange(0, k as int) + seq![t@[k as int]]);
        k += 1;
    }
    assert(t@.subrange(0, k as int) + first_word(t@.subrange(k as int, n as int)) =~= t@.subrange(0, k as int));
    substring(t, 0, k)
}

/// `sig` is the signature that a Rust `line` gives for `name`.
pub open spec fn rust_signature_of(sig: FunctionSignature, line: Seq<char>, name: Seq<char>) -> bool {
    sig.name@ == name && sig.params@.map_values(|p: String| p@) == rust_params(split(param_text(line)->Some_0, ','))
        && sig.return_type@ == rust_return_type(line)
}

/// Reads the signature of `func_name` from a Rust line such as
/// `pub fn add(a: i32, b: i32) -> i32 {`; `None` when the line has no `(`
/// followed by a `)`.
pub fn extract_rust_signature(line: &str, func_name: &str) -> (r: Option<FunctionSignature>)
    ensures
        param_text(line@) is None <==> r is None,
        r matches Some(sig) ==> rust_signature_of(sig, line@, func_name@),
{
    let open = find_str(line, "(");
    let close = find_str(line, ")");
    proof {
        reveal_strlit("(");
        reveal_strlit(")");
        assert("("@ =~= seq!['(']);
        assert(")"@ =~= seq![')']);
    }
    let (a, b) = match (open, close) {
        (Some(a), Some(b)) => (a, b),
        _ => return None,
    };
    if a >= b {
        return None;
    }
    proof {
        lemma_find_bounds(line@, seq!['('], 0);
        lemma_find_bounds(line@, seq![')'], 0);
    }
    let text = substring(line, a + 1, b);
    let pieces = split_at_char(text.as_str(), ',');
    let ghost ps = split(text@, ',');
    let mut params: Vec<String> = Vec::new();
    let mut k: usize = 0;
    while k < pieces.len()
        invariant
            pieces@.map_values(|p: String| p@) == ps,
            k <= pieces.len(),
            params@.map_values(|p: String| p@) == rust_params(ps.take(k as int)),
        decreases pieces.len() - k,
    {
        assert(ps.take(k + 1).drop_last() =~= ps.take(k as int));
        assert(pieces@[k as int]@ == ps[k as int]);
        let t = trim_str(pieces[k].as_str());
        if t.unicode_len() > 0 {
            let colon = find_str(t.as_str(), ":");
            proof {
                reveal_strlit(":");
                assert(":"@ =~= seq![':']);
            }
            let ty = match colon {
                Some(c) => {
                    proof {
                        lemma_find_bounds(t@, seq![':'], 0);
                    }
                    let after = substring(t.as_str(), c + 1, t.unicode_len());
                    trim_str(after.as_str())
                },
                None => String::from_str("unknown"),
            };
            params.push(ty);
        }
        assert(params@.map_values(|p: String| p@) =~= rust_params(ps.take(k + 1)));
        k += 1;
    }
    assert(ps.take(ps.len() as int) =~= ps);
    let arrow = find_str(line, "->");
    proof {
        reveal_strlit("->");
        assert("->"@.len() == 2);
    }
    let return_type = match arrow {
        Some(k) => {
            proof {
                lemma_find_bounds(line@, "->"@, 0);
            }
            let n = line.unicode_len();
            let after = substring(line, k + 2, n);
            let t = trim_str(after.as_str());
            if t.unicode_len() == 0 { String::from_str("unknown") } else { first_word_str(t.as_str()) }
        },
        None => String::from_str("()"),
    };
    Some(FunctionSignature { name: String::from_str(func_name), params, return_type })
}

/// A word that ends a C parameter's type: `const`, or one starting with `*`.
pub open spec fn stop_word(w: Seq<char>) -> bool {
    w == "const"@ || (w.len() > 0 && w[0] == '*')
}

/// Closes the word `cur`: words after the first stop word are dropped, the
/// others are joined to `out` with single spaces.
pub open spec fn close_word(out: Seq<char>, cur: Seq<char>, stopped: bool) -> (Seq<char>, bool) {
    if cur.len() == 0 || stopped {
        (out, stopped)
    } else if stop_word(cur) {
        (out, true)
    } else if out.len() == 0 {
        (cur, false)
    } else {
        (out + seq![' '] + cur, false)
    }
}

/// Reads `s` left to right: the joined words so far, the word being read,
/// and whether a stop word was met.
pub open spec fn scan_words(s: Seq<char>) -> (Seq<char>, Seq<char>, bool)
    decreases s.len(),
{
    if s.len() == 0 {
        (seq![], seq![], false)
    } else {
        let (out, cur, stopped) = scan_words(s.drop_last());
        if whitespace(s.last()) {
            let (o, st) = close_word(out, cur, stopped);
            (o, seq![], st)
        } else {
            (out, cur.push(s.last()), stopped)
        }
    }
}

/// The type of one C parameter: its words up to the first stop word, joined
/// by single spaces.
pub open spec fn c_param_type(p: Seq<char>) -> Seq<char> {
    let (out, cur, stopped) = scan_words(p);
    close_word(out, cur, stopped).0
}

/// The types of the parameters among `pieces` that are neither empty nor `void`.
pub open spec fn c_params(pieces: Seq<Seq<char>>) -> Seq<Seq<char>>
    decreases pieces.len(),
{
    if pieces.len() == 0 {
        seq![]
    } else {
        let rest = c_params(pieces.drop_last());
        let t = trim(pieces.last());
        if t.len() == 0 || t == "void"@ { rest } else { rest.push(c_param_type(t)) }
    }
}

pub open spec fn before(line: Seq<char>, word: Seq<char>, limit: int) -> bool {
    find(line, word) matches Some(k) && k < limit
}

/// `void` or `int` when that word occurs before the first `(`, else `unknown`.
pub open spec fn c_return_type(line: Seq<char>, open: int) -> Seq<char> {
    if before(line, "void"@, open) {
        "void"@
    } else if before(line, "int"@, open) {
        "int"@
    } else {
        "unknown"@
    }
}

fn close_word_exec(out: String, word: &str, stopped: bool) -> (r: (String, bool))
    ensures
        (r.0@, r.1) == close_word(out@, word@, stopped),
{
    let n = word.unicode_len();
    if n == 0 || stopped {
        return (out, stopped);
    }
    let w = String::from_str(word);
    let konst = String::from_str("const");
    proof {
        reveal_strlit("const");
    }
    if w == konst || word.get_char(0) == '*' {
        return (out, true);
    }
    if out.unicode_len() == 0 {
        return (w, false);
    }
    let mut o = out;
    o.append(" ");
    o.append(word);
    proof {
        reveal_strlit(" ");
        assert(" "@ =~= seq![' ']);
    }
    (o, false)
}

fn c_param_type_exec(p: &str) -> (r: String)
    ensures
        r@ == c_param_type(p@),
{
    let n = p.unicode_len();
    let mut out = String::new();
    let mut start: usize = 0;
    let mut stopped = false;
    let mut i: usize = 0;
    assert(p@.subrange(0, 0) =~= seq![]);
    while i < n
        invariant
            n == p@.len(),
            start <= i <= n,
            scan_words(p@.subrange(0, i as int)) == (out@, p@.subrange(start as int, i as int), stopped),
        decreases n - i,
    {
        let c = p.get_char(i);
        assert(p@.subrange(0, i + 1).drop_last() =~= p@.subrange(0, i as int));
        if is_space(c) {
            let word = substring(p, start, i);
            let (o, st) = close_word_exec(out, word.as_str(), stopped);
            out = o;
            stopped = st;
            start = i + 1;
            assert(p@.subrange(start as int, i + 1) =~= seq![]);
        } else {
            assert(p@.subrange(start as int, i + 1) =~= p@.subrange(start as int, i as int).push(c));
        }
        i += 1;
    }
    assert(p@.subrange(0, n as int) =~= p@);
    let word = substring(p, start, n);
    let (o, _) = close_word_exec(out, word.as_str(), stopped);
    o
}

/// `sig` is the signature that a C `line` gives for `name`.
pub open spec fn c_signature_of(sig: FunctionSignature, line: Seq<char>, name: Seq<char>) -> bool {
    sig.name@ == name && sig.params@.map_values(|p: String| p@) == c_params(split(param_text(line)->Some_0, ','))
        && sig.return_type@ == c_return_type(line, find(line, seq!['('])->Some_0)
}

/// Reads the signature of `func_name` from a C line such as
/// `int add(int a, const int *b) {`; `None` when the line has no `(`
/// followed by a `)`.
pub fn extract_c_signature(line: &str, func_name: &str) -> (r: Option<FunctionSignature>)
    ensures
        param_text(line@) is None <==> r is None,
        r matches Some(sig) ==> c_signature_of(sig, line@, func_name@),
{
    let open = find_str(line, "(");
    let close = find_str(line, ")");
    proof {
        reveal_strlit("(");
        reveal_strlit(")");
        assert("("@ =~= seq!['(']);
        assert(")"@ =~= seq![')']);
    }
    let (a, b) = match (open, close) {
        (Some(a), Some(b)) => (a, b),
        _ => return None,
    };
    if a >= b {
        return None;
    }
    proof {
        lemma_find_bounds(line@, seq!['('], 0);
        lemma_find_bounds(line@, seq![')'], 0);
    }
    let text = substring(line, a + 1, b);
    let pieces = split_at_char(text.as_str(), ',');
    let ghost ps = split(text@, ',');
    let void_word = String::from_str("void");
    proof {
        reveal_strlit("void");
    }
    let mut params: Vec<String> = Vec::new();
    let mut k: usize = 0;
    while k < pieces.len()
        invariant
            pieces@.map_values(|p: String| p@) == ps,
            void_word@ == "void"@,
            k <= pieces.len(),
            params@.map_values(|p: String| p@) == c_params(ps.take(k as int)),
        decreases pieces.len() - k,
    {
        assert(ps.take(k + 1).drop_last() =~= ps.take(k as int));
        assert(pieces@[k as int]@ == ps[k as int]);
        let t = trim_str(pieces[k].as_str());
        if t.unicode_len() > 0 && t != void_word {
            params.push(c_param_type_exec(t.as_str()));
        }
        assert(params@.map_values(|p: String| p@) =~= c_params(ps.take(k + 1)));
        k += 1;
    }
    assert(ps.take(ps.len() as int) =~= ps);
    let return_type = match find_str(line, "void") {
        Some(v) if v < a => String::from_str("void"),
        _ => match find_str(line, "int") {
            Some(v) if v < a => String::from_str("int"),
            _ => String::from_str("unknown"),
        },
    };
    Some(FunctionSignature { name: String::from_str(func_name), params, return_type })
}

/// A trimmed C line that may define `name`: it mentions `name` and has a `(`
/// followed by a `)`.
pub open spec fn c_candidate(t: Seq<char>, name: Seq<char>) -> bool {
    find(t, name) is Some && param_text(t) is Some
}

/// A trimmed Rust line that may define `name`: it starts with `fn` or
/// `pub fn`, mentions `name`, and has a `(` followed by a `)`.
pub open spec fn rust_candidate(t: Seq<char>, name: Seq<char>) -> bool {
    (find(t, "fn"@) == Some(0int) || find(t, "pub fn"@) == Some(0int)) && find(t, name) is Some
        && param_text(t) is Some
}

/// The first line from `i` on whose trimmed text satisfies the C or the Rust
/// test.
pub open spec fn first_candidate(ls: Seq<Seq<char>>, name: Seq<char>, c: bool, i: int) -> Option<int>
    decreases ls.len() - i,
{
    if i < 0 || i >= ls.len() {
        None
    } else if (if c { c_candidate(trim(ls[i]), name) } else { rust_candidate(trim(ls[i]), name) }) {
        Some(i)
    } else {
        first_candidate(ls, name, c, i + 1)
    }
}

fn starts_with(t: &str, prefix: &str) -> (r: bool)
    ensures
        r == (find(t@, prefix@) == Some(0int)),
{
    let n = t.unicode_len();
    let m = prefix.unicode_len();
    if m > n {
        proof {
            lemma_find_bounds(t@, prefix@, 0);
        }
        return false;
    }
    let head = substring(t, 0, m);
    let p = String::from_str(prefix);
    proof {
        assert(m + 0 <= t@.len());
    }
    if head == p {
        assert(t@.subrange(0, prefix@.len() as int) == prefix@);
        true
    } else {
        proof {
            lemma_find_bounds(t@, prefix@, 0);
        }
        false
    }
}

/// Scans `content` line by line for the first line that may define
/// `func_name` (`c` selects the C test or the Rust one) and reads its
/// signature.
fn find_signature(content: &str, func_name: &str, c: bool) -> (r: Option<FunctionSignature>)
    ensures
        match first_candidate(split(content@, '\n'), func_name@, c, 0) {
            None => r is None,
            Some(k) => r matches Some(sig) && (if c {
                c_signature_of(sig, trim(split(content@, '\n')[k]), func_name@)
            } else {
                rust_signature_of(sig, trim(split(content@, '\n')[k]), func_name@)
            }),
        },
{
    let lines = split_at_char(content, '\n');
    let ghost ls = split(content@, '\n');
    let mut k: usize = 0;
    proof {
        reveal_strlit("fn");
        reveal_strlit("pub fn");
    }
    while k < lines.len()
        invariant
            lines@.map_values(|p: String| p@) == ls,
            ls == split(content@, '\n'),
            lines@.len() == ls.len(),
            k <= lines.len(),
            first_candidate(ls, func_name@, c, 0) == first_candidate(ls, func_name@, c, k as int),
        decreases lines.len() - k,
    {
        assert(lines@[k as int]@ == ls[k as int]);
        let t = trim_str(lines[k].as_str());
        let mentions = find_str(t.as_str(), func_name).is_some();
        let sig = if c {
            if mentions { extract_c_signature(t.as_str(), func_name) } else { None }
        } else {
            let opens = starts_with(t.as_str(), "fn") || starts_with(t.as_str(), "pub fn");
            if opens && mentions { extract_rust_signature(t.as_str(), func_name) } else { None }
        };
        if sig.is_some() {
            return sig;
        }
        k += 1;
    }
    None
}

/// The signature of `func_name` in C source text: read from the first line
/// that mentions it and has a `(` followed by a `)`.
pub fn find_c_signature(content: &str, func_name: &str) -> (r: Option<FunctionSignature>)
    ensures
        match first_candidate(split(content@, '\n'), func_name@, true, 0) {
            None => r is None,
            Some(k) => r matches Some(sig) && c_signature_of(sig, trim(split(content@, '\n')[k]), func_name@),
        },
{
    find_signature(content, func_name, true)
}

/// The signature of `func_name` in Rust source text: read from the first
/// line that starts with `fn` or `pub fn`, mentions it, and has a `(`
/// followed by a `)`.
pub fn find_rust_signature(content: &str, func_name: &str) -> (r: Option<FunctionSignature>)
    ensures
        match first_candidate(split(content@, '\n'), func_name@, false, 0) {
            None => r is None,
            Some(k) => r matches Some(sig) && rust_signature_of(sig, trim(split(content@, '\n')[k]), func_name@),
        },
{
    find_signature(content, func_name, false)
}

/// Whether the two signatures take as many parameters each.
pub fn same_arity(c: &FunctionSignature, r: &FunctionSignature) -> (b: bool)
    ensures
        b == (c.params@.len() == r.params@.len()),
{
    c.params.len() == r.params.len()
}

} // verus!
