//! The grammar of value lines and rule lines, and placeholder substitution.
use vstd::prelude::*;
use crate::syntax::{
    at, check_word, find_char, find_from, first_word, has_at, is_word, lemma_find_from_bounds,
    same, slice_of, split_by, split_on, split_word, trim, trimmed, trim_end,
};
use crate::pattern::chars_of;
use crate::template::{CompileErrorKind, RecordAction, ValueOption};

verus! {

/// The line operator of a rule action.
#[derive(PartialEq, Eq, Structural, Clone, Copy, Debug)]
pub enum LineOp {
    Next,
    Continue,
    Error,
}

pub open spec fn option_named(s: Seq<char>) -> Option<ValueOption> {
    if s == seq!['F', 'i', 'l', 'l', 'd', 'o', 'w', 'n'] {
        Some(ValueOption::Filldown)
    } else if s == seq!['K', 'e', 'y'] {
        Some(ValueOption::Key)
    } else if s == seq!['R', 'e', 'q', 'u', 'i', 'r', 'e', 'd'] {
        Some(ValueOption::Required)
    } else if s == seq!['L', 'i', 's', 't'] {
        Some(ValueOption::List)
    } else if s == seq!['F', 'i', 'l', 'l', 'u', 'p'] {
        Some(ValueOption::Fillup)
    } else {
        None
    }
}

pub open spec fn record_named(s: Seq<char>) -> Option<RecordAction> {
    if s == seq!['R', 'e', 'c', 'o', 'r', 'd'] {
        Some(RecordAction::Record)
    } else if s == seq!['N', 'o', 'R', 'e', 'c', 'o', 'r', 'd'] {
        Some(RecordAction::NoRecord)
    } else if s == seq!['C', 'l', 'e', 'a', 'r'] {
        Some(RecordAction::Clear)
    } else if s == seq!['C', 'l', 'e', 'a', 'r', 'A', 'l', 'l'] {
        Some(RecordAction::ClearAll)
    } else {
        None
    }
}

pub open spec fn line_named(s: Seq<char>) -> Option<LineOp> {
    if s == seq!['N', 'e', 'x', 't'] {
        Some(LineOp::Next)
    } else if s == seq!['C', 'o', 'n', 't', 'i', 'n', 'u', 'e'] {
        Some(LineOp::Continue)
    } else if s == seq!['E', 'r', 'r', 'o', 'r'] {
        Some(LineOp::Error)
    } else {
        None
    }
}

impl ValueOption {
    /// The option that the token names, if any.
    pub fn from_str(i: &str) -> (r: Option<ValueOption>)
        ensures
            r == option_named(i@),
    {
        ValueOption::from_chars(&chars_of(i))
    }

    pub fn from_chars(s: &Vec<char>) -> (r: Option<ValueOption>)
        ensures
            r == option_named(s@),
    {
        if same(s, &vec!['F', 'i', 'l', 'l', 'd', 'o', 'w', 'n']) {
            Some(ValueOption::Filldown)
        } else if same(s, &vec!['K', 'e', 'y']) {
            Some(ValueOption::Key)
        } else if same(s, &vec!['R', 'e', 'q', 'u', 'i', 'r', 'e', 'd']) {
            Some(ValueOption::Required)
        } else if same(s, &vec!['L', 'i', 's', 't']) {
            Some(ValueOption::List)
        } else if same(s, &vec!['F', 'i', 'l', 'l', 'u', 'p']) {
            Some(ValueOption::Fillup)
        } else {
            None
        }
    }
}

impl RecordAction {
    /// The record action that the token names, if any.
    pub fn from_str(i: &str) -> (r: Option<RecordAction>)
        ensures
            r == record_named(i@),
    {
        RecordAction::from_chars(&chars_of(i))
    }

    pub fn from_chars(s: &Vec<char>) -> (r: Option<RecordAction>)
        ensures
            r == record_named(s@),
    {
        if same(s, &vec!['R', 'e', 'c', 'o', 'r', 'd']) {
            Some(RecordAction::Record)
        } else if same(s, &vec!['N', 'o', 'R', 'e', 'c', 'o', 'r', 'd']) {
            Some(RecordAction::NoRecord)
        } else if same(s, &vec!['C', 'l', 'e', 'a', 'r']) {
            Some(RecordAction::Clear)
        } else if same(s, &vec!['C', 'l', 'e', 'a', 'r', 'A', 'l', 'l']) {
            Some(RecordAction::ClearAll)
        } else {
            None
        }
    }
}

impl LineOp {
    /// The line operator that the token names, if any.
    pub fn from_str(i: &str) -> (r: Option<LineOp>)
        ensures
            r == line_named(i@),
    {
        LineOp::from_chars(&chars_of(i))
    }

    pub fn from_chars(s: &Vec<char>) -> (r: Option<LineOp>)
        ensures
            r == line_named(s@),
    {
        if same(s, &vec!['N', 'e', 'x', 't']) {
            Some(LineOp::Next)
        } else if same(s, &vec!['C', 'o', 'n', 't', 'i', 'n', 'u', 'e']) {
            Some(LineOp::Continue)
        } else if same(s, &vec!['E', 'r', 'r', 'o', 'r']) {
            Some(LineOp::Error)
        } else {
            None
        }
    }
}

/// An optional new state: nothing, or one word.
pub open spec fn state_ok(s: Seq<char>) -> bool {
    s.len() == 0 || is_word(s)
}

/// The action text `a` of a rule, read by the first of the three forms that
/// fits it whole: `LineOp[.RecordOp] [State]` (after `Error`, a message in
/// place of the state), `RecordOp [State]`, or `[State]`. The third part is
/// the new state or the message, empty where absent.
pub open spec fn action_of(a: Seq<char>) -> Option<(LineOp, RecordAction, Seq<char>)> {
    let (w, rest) = split_word(a);
    let d = find_from(w, '.', 0);
    let lw = match d {
        Some(i) => w.subrange(0, i),
        None => w,
    };
    match line_named(lw) {
        Some(lop) => {
            let rop = match d {
                Some(i) => record_named(w.subrange(i + 1, w.len() as int)),
                None => Some(RecordAction::NoRecord),
            };
            match rop {
                None => None,
                Some(rop) => if lop == LineOp::Error || state_ok(rest) {
                    Some((lop, rop, rest))
                } else {
                    None
                },
            }
        },
        None => match record_named(w) {
            Some(rop) => if state_ok(rest) {
                Some((LineOp::Next, rop, rest))
            } else {
                None
            },
            None => if rest.len() == 0 && state_ok(w) {
                Some((LineOp::Next, RecordAction::NoRecord, w))
            } else {
                None
            },
        },
    }
}

/// Reads the action text of a rule.
pub fn parse_action(a: &Vec<char>) -> (r: Option<(LineOp, RecordAction, Vec<char>)>)
    ensures
        match action_of(a@) {
            Some((l, o, s)) => r matches Some((l2, o2, s2)) && l2 == l && o2 == o && s2@ == s,
            None => r is None,
        },
{
    let (w, rest) = first_word(a);
    let d = find_char(&w, '.', 0);
    proof {
        lemma_find_from_bounds(w@, '.', 0);
    }
    let lw = match d {
        Some(i) => slice_of(&w, 0, i),
        None => slice_of(&w, 0, w.len()),
    };
    assert(w@.subrange(0, w@.len() as int) =~= w@);
    match LineOp::from_chars(&lw) {
        Some(lop) => {
            let rop = match d {
                Some(i) => RecordAction::from_chars(&slice_of(&w, i + 1, w.len())),
                None => Some(RecordAction::NoRecord),
            };
            match rop {
                None => None,
                Some(rop) => if lop == LineOp::Error || rest.len() == 0 || check_word(&rest) {
                    Some((lop, rop, rest))
                } else {
                    None
                },
            }
        },
        None => match RecordAction::from_chars(&w) {
            Some(rop) => if rest.len() == 0 || check_word(&rest) {
                Some((LineOp::Next, rop, rest))
            } else {
                None
            },
            None => if rest.len() == 0 && (w.len() == 0 || check_word(&w)) {
                Some((LineOp::Next, RecordAction::NoRecord, w))
            } else {
                None
            },
        },
    }
}

pub open spec fn arrow() -> Seq<char> {
    seq!['-', '>']
}

/// The first index from `i` on where `->` stands, if any.
pub open spec fn arrow_from(l: Seq<char>, i: int) -> Option<int>
    decreases l.len() - i,
{
    if i < 0 || i + 2 > l.len() {
        None
    } else if has_at(l, i, arrow()) {
        Some(i)
    } else {
        arrow_from(l, i + 1)
    }
}

/// A rule line split at its first `->`: the match text without trailing
/// blanks, and the trimmed action text, if there is an arrow.
pub open spec fn rule_parts(l: Seq<char>) -> (Seq<char>, Option<Seq<char>>) {
    match arrow_from(l, 0) {
        Some(p) => (trim_end(l.subrange(0, p)), Some(trimmed(l.subrange(p + 2, l.len() as int)))),
        None => (l, None),
    }
}

pub proof fn lemma_arrow_bounds(l: Seq<char>, i: int)
    ensures
        arrow_from(l, i) matches Some(p) ==> 0 <= i <= p && p + 2 <= l.len(),
    decreases l.len() - i,
{
    if 0 <= i && i + 2 <= l.len() && !has_at(l, i, arrow()) {
        lemma_arrow_bounds(l, i + 1);
    }
}

pub fn split_rule(l: &Vec<char>) -> (r: (Vec<char>, Option<Vec<char>>))
    ensures
        r.0@ == rule_parts(l@).0,
        match rule_parts(l@).1 {
            Some(a) => r.1 matches Some(x) && x@ == a,
            None => r.1 is None,
        },
{
    let arrow_lit = vec!['-', '>'];
    let mut i: usize = 0;
    while l.len() >= 2 && i <= l.len() - 2
        invariant
            i <= l@.len(),
            arrow_lit@ == arrow(),
            arrow_from(l@, 0) == arrow_from(l@, i as int),
        decreases l@.len() - i,
    {
        if at(l, i, &arrow_lit) {
            let m = slice_of(l, 0, i);
            let a = slice_of(l, i + 2, l.len());
            let m2 = trim_end_of(&m);
            return (m2, Some(trim(&a)));
        }
        i = i + 1;
    }
    assert(l@.subrange(0, l@.len() as int) =~= l@);
    (slice_of(l, 0, l.len()), None)
}

fn trim_end_of(s: &Vec<char>) -> (r: Vec<char>)
    ensures
        r@ == trim_end(s@),
{
    let mut b: usize = s.len();
    while b > 0 && (s[b - 1] == ' ' || s[b - 1] == '\t' || s[b - 1] == '\r')
        invariant
            b <= s@.len(),
            crate::syntax::back_ws(s@, s@.len() as int) == crate::syntax::back_ws(s@, b as int),
        decreases b,
    {
        b = b - 1;
    }
    slice_of(s, 0, b)
}

/// The first value in `vals` (pairs of name and pattern text) named `name`,
/// from index `i` on: its pattern text.
pub open spec fn lookup_from(vals: Seq<(Seq<char>, Seq<char>)>, name: Seq<char>, i: int) -> Option<
    Seq<char>,
>
    decreases vals.len() - i,
{
    if i < 0 || i >= vals.len() {
        None
    } else if vals[i].0 == name {
        Some(vals[i].1)
    } else {
        lookup_from(vals, name, i + 1)
    }
}

/// The named group that stands for a placeholder: `(?P<name>pattern)`.
pub open spec fn group_text(name: Seq<char>, p: Seq<char>) -> Seq<char> {
    seq!['(', '?', 'P', '<'] + name + seq!['>'] + p + seq![')']
}

pub open spec fn placeholder_open() -> Seq<char> {
    seq!['$', '{']
}

/// The match text `m` from index `i` on with each `${Name}` replaced by the
/// named group of value `Name`; the first unknown name otherwise.
pub open spec fn subst_from(m: Seq<char>, vals: Seq<(Seq<char>, Seq<char>)>, i: int) -> Result<
    Seq<char>,
    Seq<char>,
>
    decreases m.len() - i,
{
    if i < 0 || i >= m.len() {
        Ok(Seq::empty())
    } else {
        let close = find_from(m, '}', i + 2);
        if has_at(m, i, placeholder_open()) && close is Some && i + 2 <= close.unwrap() < m.len() {
            let e = close.unwrap();
            let name = m.subrange(i + 2, e);
            match lookup_from(vals, name, 0) {
                None => Err(name),
                Some(p) => match subst_from(m, vals, e + 1) {
                    Err(x) => Err(x),
                    Ok(rest) => Ok(group_text(name, p) + rest),
                },
            }
        } else {
            match subst_from(m, vals, i + 1) {
                Err(x) => Err(x),
                Ok(rest) => Ok(seq![m[i]] + rest),
            }
        }
    }
}

pub open spec fn prepend(out: Seq<char>, r: Result<Seq<char>, Seq<char>>) -> Result<Seq<char>, Seq<char>> {
    match r {
        Ok(x) => Ok(out + x),
        Err(e) => Err(e),
    }
}

pub open spec fn pair_views(v: Seq<(Vec<char>, Vec<char>)>) -> Seq<(Seq<char>, Seq<char>)> {
    v.map_values(|p: (Vec<char>, Vec<char>)| (p.0@, p.1@))
}

fn lookup(vals: &Vec<(Vec<char>, Vec<char>)>, name: &Vec<char>) -> (r: Option<usize>)
    ensures
        match lookup_from(pair_views(vals@), name@, 0) {
            Some(p) => r matches Some(k) && k < vals@.len() && vals@[k as int].1@ == p,
            None => r is None,
        },
{
    let mut i: usize = 0;
    while i < vals.len()
        invariant
            i <= vals@.len(),
            lookup_from(pair_views(vals@), name@, 0) == lookup_from(pair_views(vals@), name@, i as int),
        decreases vals@.len() - i,
    {
        if same(&vals[i].0, name) {
            return Some(i);
        }
        i = i + 1;
    }
    None
}

fn push_all(out: &mut Vec<char>, s: &Vec<char>)
    ensures
        final(out)@ == old(out)@ + s@,
{
    let mut i: usize = 0;
    while i < s.len()
        invariant
            i <= s@.len(),
            out@ == old(out)@ + s@.subrange(0, i as int),
        decreases s@.len() - i,
    {
        out.push(s[i]);
        i = i + 1;
        assert(out@ =~= old(out)@ + s@.subrange(0, i as int));
    }
    assert(s@.subrange(0, s@.len() as int) =~= s@);
}

/// Replaces each `${Name}` of the match text `m` by the named group of the
/// value `Name`, given as pairs of name and pattern text.
pub fn substitute(m: &Vec<char>, vals: &Vec<(Vec<char>, Vec<char>)>) -> (r: Result<Vec<char>, Vec<char>>)
    ensures
        match subst_from(m@, pair_views(vals@), 0) {
            Ok(x) => r matches Ok(y) && y@ == x,
            Err(x) => r matches Err(y) && y@ == x,
        },
{
    let ghost pv = pair_views(vals@);
    let open_lit = vec!['$', '{'];
    let mut out: Vec<char> = Vec::new();
    let mut i: usize = 0;
    while i < m.len()
        invariant
            i <= m@.len(),
            open_lit@ == placeholder_open(),
            pv == pair_views(vals@),
            subst_from(m@, pv, 0) == prepend(out@, subst_from(m@, pv, i as int)),
        decreases m@.len() - i,
    {
        let close = if m.len() >= 2 && i <= m.len() - 2 { find_char(m, '}', i + 2) } else { None };
        proof {
            lemma_find_from_bounds(m@, '}', i + 2);
        }
        if at(m, i, &open_lit) && close.is_some() {
            let e = close.unwrap();
            let name = slice_of(m, i + 2, e);
            match lookup(vals, &name) {
                None => {
                    return Err(name);
                },
                Some(k) => {
                    let ghost before = out@;
                    let ghost rest = subst_from(m@, pv, e + 1);
                    push_all(&mut out, &vec!['(', '?', 'P', '<']);
                    push_all(&mut out, &name);
                    push_all(&mut out, &vec!['>']);
                    push_all(&mut out, &vals[k].1);
                    push_all(&mut out, &vec![')']);
                    assert(out@ =~= before + group_text(name@, vals@[k as int].1@));
                    proof {
                        match rest {
                            Ok(x) => {
                                assert(before + (group_text(name@, vals@[k as int].1@) + x) =~= out@ + x);
                            },
                            Err(_) => {},
                        }
                    }
                    i = e + 1;
                },
            }
        } else {
            let ghost before = out@;
            out.push(m[i]);
            proof {
                match subst_from(m@, pv, i + 1) {
                    Ok(x) => {
                        assert(before + (seq![m@[i as int]] + x) =~= out@ + x);
                    },
                    Err(_) => {},
                }
            }
            i = i + 1;
        }
    }
    assert(out@ + Seq::<char>::empty() =~= out@);
    Ok(out)
}

/// The option tokens `toks`: the options they name, or the first token
/// that names none.
pub open spec fn opts_of(toks: Seq<Seq<char>>) -> Result<Seq<ValueOption>, Seq<char>>
    decreases toks.len(),
{
    if toks.len() == 0 {
        Ok(Seq::empty())
    } else {
        match opts_of(toks.drop_last()) {
            Err(e) => Err(e),
            Ok(v) => match option_named(toks.last()) {
                None => Err(toks.last()),
                Some(o) => Ok(v.push(o)),
            },
        }
    }
}

pub open spec fn value_kw() -> Seq<char> {
    seq!['V', 'a', 'l', 'u', 'e', ' ']
}

/// A trimmed value line `Value [Opt[,Opt...]] Name Pattern`: its options,
/// name and pattern text; or the rule it breaks with the offending text.
pub open spec fn value_line(l: Seq<char>) -> Result<
    (Seq<ValueOption>, Seq<char>, Seq<char>),
    (CompileErrorKind, Seq<char>),
> {
    if !has_at(l, 0, value_kw()) {
        Err((CompileErrorKind::ValueLine, l))
    } else {
        let (w1, rest1) = split_word(trimmed(l.subrange(6, l.len() as int)));
        if rest1.len() == 0 {
            Err((CompileErrorKind::ValueLine, l))
        } else if rest1[0] == '(' {
            Ok((Seq::empty(), w1, rest1))
        } else {
            let (w2, rest2) = split_word(rest1);
            if rest2.len() == 0 {
                Err((CompileErrorKind::ValueLine, l))
            } else {
                match opts_of(split_on(w1, ',')) {
                    Err(tok) => Err((CompileErrorKind::UnknownOption, tok)),
                    Ok(opts) => Ok((opts, w2, rest2)),
                }
            }
        }
    }
}

fn parse_options(toks: &Vec<Vec<char>>) -> (r: Result<Vec<ValueOption>, Vec<char>>)
    ensures
        match opts_of(toks@.map_values(|p: Vec<char>| p@)) {
            Ok(v) => r matches Ok(x) && x@ == v,
            Err(e) => r matches Err(x) && x@ == e,
        },
{
    let ghost tv = toks@.map_values(|p: Vec<char>| p@);
    let mut out: Vec<ValueOption> = Vec::new();
    let mut i: usize = 0;
    while i < toks.len()
        invariant
            i <= toks@.len(),
            tv == toks@.map_values(|p: Vec<char>| p@),
            opts_of(tv.subrange(0, i as int)) == Ok::<Seq<ValueOption>, Seq<char>>(out@),
        decreases toks@.len() - i,
    {
        assert(tv.subrange(0, i + 1).drop_last() =~= tv.subrange(0, i as int));
        match ValueOption::from_chars(&toks[i]) {
            None => {
                proof {
                    lemma_opts_err(tv, i as int);
                }
                return Err(slice_of(&toks[i], 0, toks[i].len()));
            },
            Some(o) => {
                out.push(o);
            },
        }
        i = i + 1;
    }
    assert(tv.subrange(0, tv.len() as int) =~= tv);
    Ok(out)
}

proof fn lemma_opts_err(tv: Seq<Seq<char>>, i: int)
    requires
        0 <= i < tv.len(),
        opts_of(tv.subrange(0, i)) is Ok,
        option_named(tv[i]) is None,
    ensures
        opts_of(tv) == Err::<Seq<ValueOption>, Seq<char>>(tv[i]),
    decreases tv.len() - i,
{
    assert(tv.subrange(0, i + 1).drop_last() =~= tv.subrange(0, i));
    lemma_opts_err_grow(tv, i + 1, tv[i]);
    assert(tv.subrange(0, tv.len() as int) =~= tv);
}

proof fn lemma_opts_err_grow(tv: Seq<Seq<char>>, j: int, e: Seq<char>)
    requires
        0 < j <= tv.len(),
        opts_of(tv.subrange(0, j)) == Err::<Seq<ValueOption>, Seq<char>>(e),
    ensures
        opts_of(tv.subrange(0, tv.len() as int)) == Err::<Seq<ValueOption>, Seq<char>>(e),
    decreases tv.len() - j,
{
    if j < tv.len() {
        assert(tv.subrange(0, j + 1).drop_last() =~= tv.subrange(0, j));
        lemma_opts_err_grow(tv, j + 1, e);
    }
}

/// Reads a trimmed value line.
pub fn parse_value_line(l: &Vec<char>) -> (r: Result<
    (Vec<ValueOption>, Vec<char>, Vec<char>),
    (CompileErrorKind, Vec<char>),
>)
    ensures
        match value_line(l@) {
            Ok((o, n, p)) => r matches Ok((o2, n2, p2)) && o2@ == o && n2@ == n && p2@ == p,
            Err((k, d)) => r matches Err((k2, d2)) && k2 == k && d2@ == d,
        },
{
    if !at(l, 0, &vec!['V', 'a', 'l', 'u', 'e', ' ']) {
        return Err((CompileErrorKind::ValueLine, slice_of(l, 0, l.len())));
    }
    assert(l@.subrange(0, l@.len() as int) =~= l@);
    let body = trim(&slice_of(l, 6, l.len()));
    let (w1, rest1) = first_word(&body);
    if rest1.len() == 0 {
        return Err((CompileErrorKind::ValueLine, slice_of(l, 0, l.len())));
    }
    if rest1[0] == '(' {
        return Ok((Vec::new(), w1, rest1));
    }
    let (w2, rest2) = first_word(&rest1);
    if rest2.len() == 0 {
        return Err((CompileErrorKind::ValueLine, slice_of(l, 0, l.len())));
    }
    let toks = split_by(&w1, ',');
    match parse_options(&toks) {
        Err(tok) => Err((CompileErrorKind::UnknownOption, tok)),
        Ok(opts) => Ok((opts, w2, rest2)),
    }
}

} // verus!
