//! The compiled form of a template: values, states and their rules.
use vstd::prelude::*;
use crate::grammar::{
    action_of, pair_views, parse_action, parse_value_line, rule_parts, split_rule,
    subst_from, substitute, value_line, LineOp,
};
use crate::pattern::{
    chars_of, compile_pattern, group_names, group_names_of, pattern_compiles, pattern_error_of,
    string_of, texts, Pattern,
};
use crate::syntax::{same, slice_of, trim, trimmed};
use crate::text::{char_lines, lines_of, split_lines};

verus! {

/// Which rule of the template language a rejected template breaks.
#[derive(PartialEq, Eq, Structural, Clone, Copy, Debug)]
pub enum CompileErrorKind {
    /// A line of the value section is not `Value [options] Name Pattern`.
    ValueLine,
    /// An option token that is not one of the five options.
    UnknownOption,
    /// A value name declared twice.
    DuplicateValue,
    /// A value pattern, or a rule pattern after substitution, that does not compile.
    InvalidPattern,
    /// A state name declared twice.
    DuplicateState,
    /// The first state is not named `Start`, or there is none.
    MissingStart,
    /// A `${Name}` placeholder that names no declared value.
    UnknownPlaceholder,
    /// A rule action that fits none of the three action forms.
    MalformedAction,
    /// A `Continue` rule that also names a new state.
    ContinueWithState,
    /// A rule target that names no declared state.
    UnknownState,
}

/// Errors of compiling and of running a template.
#[derive(PartialEq, Eq, Debug)]
pub enum TemplateError {
    /// An `Error` action fired on the input line `line` (counted from 1).
    TextFsmError { message: String, line: usize },
    /// The template was rejected; `line` is its line (counted from 1, 0 where
    /// none applies) and `detail` the offending name, token or message.
    TextFSMTemplateError { kind: CompileErrorKind, line: usize, detail: String },
}

/// What happens to the input line once a rule has matched it.
#[derive(PartialEq, Eq, Debug)]
pub enum LineAction {
    /// Go on with the next input line.
    Next,
    /// Try the following rules of the state on the same line.
    Continue,
    /// Stop with an error that carries the message.
    Error(String),
}

/// What happens to the pending record once a rule has matched.
#[derive(PartialEq, Eq, Structural, Clone, Copy, Debug)]
pub enum RecordAction {
    NoRecord,
    Record,
    Clear,
    ClearAll,
}

/// The life-cycle options a value may carry.
#[derive(PartialEq, Eq, Structural, Clone, Copy, Debug)]
pub enum ValueOption {
    Filldown,
    Key,
    Required,
    List,
    Fillup,
}

/// Where a rule sends the machine once it has matched.
#[derive(PartialEq, Eq, Structural, Clone, Copy, Debug)]
pub enum Target {
    /// Remain in the current state.
    Stay,
    /// The state at this index of the template.
    State(usize),
    /// Stop at once.
    End,
    /// Stop after the end-of-input flush.
    Eof,
}

/// A declared value: its name, options and pattern.
pub struct TemplateValue {
    pub name: String,
    pub options: Vec<ValueOption>,
    pub regex: String,
    pub pattern: Pattern,
    /// Names of the named groups inside the value's own pattern.
    pub subgroups: Vec<String>,
}

/// A compiled rule of a state.
pub struct TemplateRule {
    /// The match text with every placeholder replaced by its named group.
    pub regex: String,
    pub line_op: LineAction,
    pub record_op: RecordAction,
    /// The target state as written, empty where none was.
    pub new_state: String,
    pub target: Target,
    pub pattern: Pattern,
}

/// A state: its name and its rules, in order of priority.
pub struct TemplateState {
    pub name: String,
    pub rules: Vec<TemplateRule>,
}

/// A compiled template, ready to run.
pub struct Template {
    pub values: Vec<TemplateValue>,
    /// The value names, in declaration order.
    pub names: Vec<String>,
    pub states: Vec<TemplateState>,
    /// Whether a state named `EOF` is declared.
    pub has_eof: bool,
}

pub open spec fn has_opt(v: TemplateValue, o: ValueOption) -> bool {
    v.options@.contains(o)
}

impl Template {
    /// The structure that compilation guarantees and execution relies on.
    pub open spec fn wf(&self) -> bool {
        &&& self.names@.len() == self.values@.len()
        &&& forall|i: int| 0 <= i < self.values@.len() ==> #[trigger] self.names@[i]@ == self.values@[i].name@
        &&& forall|i: int, j: int|
            0 <= i < j < self.values@.len() ==> self.names@[i]@ != self.names@[j]@
        &&& self.states@.len() > 0
        &&& self.states@[0].name@ == start_name()
        &&& forall|a: int, b: int|
            0 <= a < b < self.states@.len() ==> self.states@[a].name@ != self.states@[b].name@
        &&& self.has_eof == exists|s: int|
            0 <= s < self.states@.len() && #[trigger] self.states@[s].name@ == eof_name()
        &&& forall|s: int, k: int|
            0 <= s < self.states@.len() && 0 <= k < self.states@[s].rules@.len() ==> {
                let r = #[trigger] self.states@[s].rules@[k];
                &&& r.target_ok(self.states@)
                &&& (r.line_op matches LineAction::Continue ==> r.target == Target::Stay)
            }
    }
}

pub open spec fn end_name() -> Seq<char> {
    seq!['E', 'n', 'd']
}

pub open spec fn eof_name() -> Seq<char> {
    seq!['E', 'O', 'F']
}

pub open spec fn start_name() -> Seq<char> {
    seq!['S', 't', 'a', 'r', 't']
}

pub open spec fn state_names(states: Seq<TemplateState>) -> Seq<Seq<char>> {
    states.map_values(|s: TemplateState| s.name@)
}

/// Whether `target` is what the written state name `ns` denotes among the
/// declared state names `names`.
pub open spec fn target_fits(target: Target, ns: Seq<char>, names: Seq<Seq<char>>) -> bool {
    match target {
        Target::Stay => ns.len() == 0,
        Target::End => ns == end_name(),
        Target::Eof => ns == eof_name(),
        Target::State(j) => j < names.len() && names[j as int] == ns && ns != end_name() && ns
            != eof_name(),
    }
}

/// A written state name that denotes nothing: not empty, not reserved and
/// not declared.
pub open spec fn unknown_target(ns: Seq<char>, names: Seq<Seq<char>>) -> bool {
    ns.len() > 0 && ns != end_name() && ns != eof_name() && !names.contains(ns)
}

impl TemplateRule {
    /// The target agrees with the state name written in the rule.
    pub open spec fn target_ok(&self, states: Seq<TemplateState>) -> bool {
        target_fits(self.target, self.new_state@, state_names(states))
    }
}

/// Whether the value carries option `o`.
pub fn has_option(v: &TemplateValue, o: ValueOption) -> (r: bool)
    ensures
        r == has_opt(*v, o),
{
    let mut i: usize = 0;
    while i < v.options.len()
        invariant
            i <= v.options@.len(),
            forall|j: int| 0 <= j < i ==> v.options@[j] != o,
        decreases v.options@.len() - i,
    {
        if v.options[i] == o {
            return true;
        }
        i = i + 1;
    }
    proof {
        if v.options@.contains(o) {
            let j = choose|j: int| 0 <= j < v.options@.len() && v.options@[j] == o;
            assert(v.options@[j] != o);
        }
    }
    false
}

pub open spec fn op_of(a: LineAction) -> LineOp {
    match a {
        LineAction::Next => LineOp::Next,
        LineAction::Continue => LineOp::Continue,
        LineAction::Error(_) => LineOp::Error,
    }
}

/// The new state of a rule, or the message of its `Error` action.
pub open spec fn third_of(r: TemplateRule) -> Seq<char> {
    match r.line_op {
        LineAction::Error(m) => m@,
        _ => r.new_state@,
    }
}

/// The action that the action text (if any) of a rule line denotes.
pub open spec fn action_part(a: Option<Seq<char>>) -> Option<(LineOp, RecordAction, Seq<char>)> {
    match a {
        Some(x) => action_of(x),
        None => Some((LineOp::Next, RecordAction::NoRecord, Seq::empty())),
    }
}

/// Rule `r` is what the rule line `text` says once trimmed, with the values
/// `vals` (pairs of name and pattern text) substituted. An `Error` rule
/// names no new state and stays.
pub open spec fn rule_from_text(r: TemplateRule, text: Seq<char>, vals: Seq<(Seq<char>, Seq<char>)>) -> bool {
    let (m, a) = rule_parts(trimmed(text));
    &&& action_part(a) == Some((op_of(r.line_op), r.record_op, third_of(r)))
    &&& subst_from(m, vals, 0) == Ok::<Seq<char>, Seq<char>>(r.regex@)
    &&& r.pattern.source() == r.regex@
    &&& (op_of(r.line_op) == LineOp::Error ==> r.new_state@.len() == 0 && r.target == Target::Stay)
}

pub open spec fn names_of(v: Seq<Vec<char>>) -> Seq<Seq<char>> {
    v.map_values(|p: Vec<char>| p@)
}

fn rejection(kind: CompileErrorKind, line: usize, detail: &Vec<char>) -> (r: TemplateError)
    ensures
        r matches TemplateError::TextFSMTemplateError { kind: k, line: n, detail: d } && k == kind
            && n == line && d@ == detail@,
{
    TemplateError::TextFSMTemplateError { kind, line, detail: string_of(detail) }
}

/// The target that the written state name `ns` denotes, if any.
fn resolve(ns: &Vec<char>, names: &Vec<Vec<char>>) -> (r: Option<Target>)
    ensures
        match r {
            Some(t) => target_fits(t, ns@, names_of(names@)),
            None => unknown_target(ns@, names_of(names@)),
        },
        ns@.len() == 0 ==> r == Some(Target::Stay),
{
    if ns.len() == 0 {
        return Some(Target::Stay);
    }
    if same(ns, &vec!['E', 'n', 'd']) {
        return Some(Target::End);
    }
    if same(ns, &vec!['E', 'O', 'F']) {
        return Some(Target::Eof);
    }
    let mut j: usize = 0;
    while j < names.len()
        invariant
            j <= names@.len(),
            ns@.len() > 0,
            ns@ != end_name(),
            ns@ != eof_name(),
            forall|k: int| 0 <= k < j ==> names@[k]@ != ns@,
        decreases names@.len() - j,
    {
        if same(&names[j], ns) {
            assert(names_of(names@)[j as int] == ns@);
            return Some(Target::State(j));
        }
        j = j + 1;
    }
    proof {
        if names_of(names@).contains(ns@) {
            let k = choose|k: int| 0 <= k < names_of(names@).len() && names_of(names@)[k] == ns@;
            assert(names@[k]@ == ns@);
        }
    }
    None
}

/// The first rule of the rule language that the rule line `text` breaks
/// once trimmed, with the offending text, when compiled against the values
/// `vals` (pairs of name and pattern text) and the declared state names
/// `names`; `None` when it compiles. The checks come in this order: the
/// action form, `Continue` with a new state, the placeholders, the pattern,
/// and last the new state.
pub open spec fn rule_check(text: Seq<char>, vals: Seq<(Seq<char>, Seq<char>)>, names: Seq<Seq<char>>) -> Option<
    (CompileErrorKind, Seq<char>),
> {
    let t = trimmed(text);
    let (m, a) = rule_parts(t);
    match action_part(a) {
        None => Some((CompileErrorKind::MalformedAction, t)),
        Some((op, _, x)) => if op == LineOp::Continue && x.len() > 0 {
            Some((CompileErrorKind::ContinueWithState, x))
        } else {
            match subst_from(m, vals, 0) {
                Err(name) => Some((CompileErrorKind::UnknownPlaceholder, name)),
                Ok(re) => if !pattern_compiles(re) {
                    Some((CompileErrorKind::InvalidPattern, pattern_error_of(re)))
                } else if op != LineOp::Error && unknown_target(x, names) {
                    Some((CompileErrorKind::UnknownState, x))
                } else {
                    None
                },
            }
        },
    }
}

impl TemplateRule {
    /// Compiles the rule line `rule_line`, the template's line `line`,
    /// against the values `vals` (pairs of name and pattern text) and the
    /// declared state names `states`; leading and trailing blanks are dropped
    /// first.
    pub fn from_template_line(
        rule_line: &Vec<char>,
        vals: &Vec<(Vec<char>, Vec<char>)>,
        states: &Vec<Vec<char>>,
        line: usize,
    ) -> (r: Result<TemplateRule, TemplateError>)
        ensures
            match rule_check(rule_line@, pair_views(vals@), names_of(states@)) {
                None => r matches Ok(rule) && {
                    &&& rule_from_text(rule, rule_line@, pair_views(vals@))
                    &&& target_fits(rule.target, rule.new_state@, names_of(states@))
                    &&& (rule.line_op matches LineAction::Continue ==> rule.target == Target::Stay)
                },
                Some((k, d)) => r matches Err(
                    TemplateError::TextFSMTemplateError { kind, line: n, detail },
                ) && kind == k && n == line && detail@ == d,
            },
    {
        let rule_line = &trim(rule_line);
        let (m, a) = split_rule(rule_line);
        let act = match a {
            Some(x) => parse_action(&x),
            None => Some((LineOp::Next, RecordAction::NoRecord, Vec::new())),
        };
        let (lop, rop, third) = match act {
            None => {
                return Err(rejection(CompileErrorKind::MalformedAction, line, rule_line));
            },
            Some(t) => t,
        };
        if lop == LineOp::Continue && third.len() > 0 {
            return Err(rejection(CompileErrorKind::ContinueWithState, line, &third));
        }
        let regex_chars = match substitute(&m, vals) {
            Err(name) => {
                return Err(rejection(CompileErrorKind::UnknownPlaceholder, line, &name));
            },
            Ok(x) => x,
        };
        let pattern = match compile_pattern(string_of(&regex_chars)) {
            Err(msg) => {
                return Err(
                    TemplateError::TextFSMTemplateError {
                        kind: CompileErrorKind::InvalidPattern,
                        line,
                        detail: msg,
                    },
                );
            },
            Ok(p) => p,
        };
        let (line_op, ns) = match lop {
            LineOp::Error => (LineAction::Error(string_of(&third)), Vec::new()),
            LineOp::Next => (LineAction::Next, third),
            LineOp::Continue => (LineAction::Continue, third),
        };
        assert(action_part(rule_parts(rule_line@).1) == Some((lop, rop, third@)));
        assert(subst_from(m@, pair_views(vals@), 0) == Ok::<Seq<char>, Seq<char>>(regex_chars@));
        let target = match resolve(&ns, states) {
            None => {
                return Err(rejection(CompileErrorKind::UnknownState, line, &ns));
            },
            Some(t) => t,
        };
        proof {
            if let Target::State(j) = target {
                assert(names_of(states@)[j as int] == ns@);
            }
        }
        Ok(
            TemplateRule {
                regex: string_of(&regex_chars),
                line_op,
                record_op: rop,
                new_state: string_of(&ns),
                target,
                pattern,
            },
        )
    }
}

pub open spec fn is_blank(l: Seq<char>) -> bool {
    trimmed(l).len() == 0
}

/// The index of the first blank line from `i` on, or the number of lines.
pub open spec fn value_end(ls: Seq<Seq<char>>, i: int) -> int
    decreases ls.len() - i,
{
    if i < 0 || i >= ls.len() {
        ls.len() as int
    } else if is_blank(ls[i]) {
        i
    } else {
        value_end(ls, i + 1)
    }
}

/// A state of the template text: its name, its trimmed rule lines and
/// their line numbers (counted from 1).
pub struct RawState {
    pub name: Seq<char>,
    pub rules: Seq<Seq<char>>,
    pub lines: Seq<int>,
}

pub open spec fn declared(acc: Seq<RawState>, name: Seq<char>) -> bool {
    exists|s: int| 0 <= s < acc.len() && (#[trigger] acc[s]).name == name
}

/// Takes in line `l`, the template's line `n`, of the state section.
pub open spec fn layout_step(acc: Seq<RawState>, l: Seq<char>, n: int) -> Result<
    Seq<RawState>,
    (CompileErrorKind, int, Seq<char>),
> {
    let tl = trimmed(l);
    if tl.len() == 0 || tl[0] == '#' {
        Ok(acc)
    } else if l.len() > 0 && (l[0] == ' ' || l[0] == '\t') {
        if acc.len() == 0 {
            Err((CompileErrorKind::MissingStart, n, tl))
        } else {
            Ok(
                acc.update(
                    acc.len() - 1,
                    RawState {
                        name: acc.last().name,
                        rules: acc.last().rules.push(tl),
                        lines: acc.last().lines.push(n),
                    },
                ),
            )
        }
    } else if declared(acc, tl) {
        Err((CompileErrorKind::DuplicateState, n, tl))
    } else {
        Ok(acc.push(RawState { name: tl, rules: Seq::empty(), lines: Seq::empty() }))
    }
}

/// The states of the lines `from..to` of the template.
pub open spec fn layout(ls: Seq<Seq<char>>, from: int, to: int) -> Result<
    Seq<RawState>,
    (CompileErrorKind, int, Seq<char>),
>
    decreases to - from,
{
    if to <= from {
        Ok(Seq::empty())
    } else {
        match layout(ls, from, to - 1) {
            Err(e) => Err(e),
            Ok(acc) => layout_step(acc, ls[to - 1], to),
        }
    }
}

/// The states of the template text `ls`, which follow the first blank line.
pub open spec fn state_layout(ls: Seq<Seq<char>>) -> Result<Seq<RawState>, (CompileErrorKind, int, Seq<char>)> {
    let ve = value_end(ls, 0);
    if ve >= ls.len() {
        Ok(Seq::empty())
    } else {
        layout(ls, ve + 1, ls.len() as int)
    }
}

struct StateText {
    name: Vec<char>,
    rules: Vec<Vec<char>>,
    lines: Vec<usize>,
}

impl View for StateText {
    type V = RawState;

    closed spec fn view(&self) -> RawState {
        RawState {
            name: self.name@,
            rules: names_of(self.rules@),
            lines: self.lines@.map_values(|x: usize| x as int),
        }
    }
}

spec fn raw_views(v: Seq<StateText>) -> Seq<RawState> {
    v.map_values(|s: StateText| s@)
}

proof fn lemma_layout_err_kinds(ls: Seq<Seq<char>>, from: int, to: int)
    ensures
        layout(ls, from, to) matches Err((k, _, _)) ==> k == CompileErrorKind::MissingStart || k
            == CompileErrorKind::DuplicateState,
    decreases to - from,
{
    if to > from {
        lemma_layout_err_kinds(ls, from, to - 1);
    }
}

proof fn lemma_layout_err_stays(ls: Seq<Seq<char>>, from: int, a: int, b: int)
    requires
        from <= a <= b,
        layout(ls, from, a) is Err,
    ensures
        layout(ls, from, b) == layout(ls, from, a),
    decreases b - a,
{
    if a < b {
        lemma_layout_err_stays(ls, from, a, b - 1);
    }
}

proof fn lemma_layout_distinct(ls: Seq<Seq<char>>, from: int, to: int)
    ensures
        layout(ls, from, to) matches Ok(acc) ==> forall|a: int, b: int|
            0 <= a < b < acc.len() ==> acc[a].name != acc[b].name,
    decreases to - from,
{
    if to > from {
        lemma_layout_distinct(ls, from, to - 1);
        match layout(ls, from, to - 1) {
            Err(_) => {},
            Ok(acc) => {
                match layout_step(acc, ls[to - 1], to) {
                    Err(_) => {},
                    Ok(acc2) => {
                        assert forall|a: int, b: int| 0 <= a < b < acc2.len() implies acc2[a].name
                            != acc2[b].name by {
                            if b == acc.len() && acc2.len() == acc.len() + 1 {
                                assert(!declared(acc, acc2[b].name));
                                if acc2[a].name == acc2[b].name {
                                    assert(acc[a].name == acc2[b].name);
                                }
                            }
                        }
                    },
                }
            },
        }
    }
}

fn is_comment_or_blank(tl: &Vec<char>) -> (r: bool)
    ensures
        r == (tl@.len() == 0 || tl@[0] == '#'),
{
    tl.len() == 0 || tl[0] == '#'
}

/// Groups the lines `from..` of the template into states and their rules.
fn group_states(ls: &Vec<Vec<char>>, from: usize) -> (r: Result<Vec<StateText>, TemplateError>)
    requires
        from <= ls@.len(),
    ensures
        match layout(char_lines(ls@), from as int, ls@.len() as int) {
            Ok(raw) => r matches Ok(v) && raw_views(v@) == raw && forall|s: int|
                0 <= s < v@.len() ==> (#[trigger] v@[s]).lines@.len() == v@[s].rules@.len(),
            Err((k, n, d)) => r matches Err(
                TemplateError::TextFSMTemplateError { kind, line, detail },
            ) && kind == k && line == n && detail@ == d,
        },
{
    let ghost lsv = char_lines(ls@);
    let mut acc: Vec<StateText> = Vec::new();
    let mut i: usize = from;
    assert(raw_views(acc@) =~= Seq::empty());
    while i < ls.len()
        invariant
            from <= i <= ls@.len(),
            lsv == char_lines(ls@),
            layout(lsv, from as int, i as int) == Ok::<Seq<RawState>, (CompileErrorKind, int, Seq<char>)>(raw_views(acc@)),
            forall|s: int| 0 <= s < acc@.len() ==> (#[trigger] acc@[s]).lines@.len() == acc@[s].rules@.len(),
        decreases ls@.len() - i,
    {
        let line_no = i + 1;
        let l = &ls[i];
        let tl = trim(l);
        let ghost before = raw_views(acc@);
        assert(lsv[i as int] == l@);
        if is_comment_or_blank(&tl) {
        } else if l.len() > 0 && (l[0] == ' ' || l[0] == '\t') {
            if acc.len() == 0 {
                proof {
                    lemma_layout_err_stays(lsv, from as int, i + 1, ls@.len() as int);
                }
                return Err(rejection(CompileErrorKind::MissingStart, line_no, &tl));
            }
            let mut last = acc.pop().unwrap();
            let ghost lastv = last@;
            last.rules.push(tl);
            last.lines.push(i + 1);
            acc.push(last);
            proof {
                assert(names_of(last.rules@) =~= lastv.rules.push(trimmed(l@)));
                assert(last.lines@.map_values(|x: usize| x as int) =~= lastv.lines.push(i + 1));
                assert(raw_views(acc@) =~= before.update(
                    before.len() - 1,
                    RawState {
                        name: before.last().name,
                        rules: before.last().rules.push(trimmed(l@)),
                        lines: before.last().lines.push(i + 1),
                    },
                ));
            }
        } else {
            let mut s: usize = 0;
            let mut found = false;
            while s < acc.len() && !found
                invariant
                    s <= acc@.len(),
                    before == raw_views(acc@),
                    found ==> declared(before, tl@),
                    !found ==> forall|q: int| 0 <= q < s ==> (#[trigger] acc@[q]).name@ != tl@,
                decreases acc@.len() - s + (if found { 0int } else { 1int }),
            {
                if same(&acc[s].name, &tl) {
                    assert(before[s as int].name == tl@);
                    found = true;
                } else {
                    s = s + 1;
                }
            }
            if found {
                proof {
                    lemma_layout_err_stays(lsv, from as int, i + 1, ls@.len() as int);
                }
                return Err(rejection(CompileErrorKind::DuplicateState, line_no, &tl));
            }
            proof {
                if declared(before, tl@) {
                    let q = choose|q: int| 0 <= q < before.len() && (#[trigger] before[q]).name == tl@;
                    assert(acc@[q].name@ == tl@);
                }
            }
            let st = StateText { name: tl, rules: Vec::new(), lines: Vec::new() };
            proof {
                assert(names_of(st.rules@) =~= Seq::empty());
                assert(st.lines@.map_values(|x: usize| x as int) =~= Seq::empty());
            }
            acc.push(st);
            assert(raw_views(acc@) =~= before.push(st@));
        }
        i = i + 1;
    }
    Ok(acc)
}

pub open spec fn value_pairs(vals: Seq<TemplateValue>) -> Seq<(Seq<char>, Seq<char>)> {
    vals.map_values(|v: TemplateValue| (v.name@, v.regex@))
}

/// What compilation guarantees of each value: names distinct, and pattern,
/// sub-group names and pattern text in agreement.
pub open spec fn values_ok(vals: Seq<TemplateValue>) -> bool {
    &&& forall|a: int, b: int| 0 <= a < b < vals.len() ==> vals[a].name@ != vals[b].name@
    &&& forall|a: int|
        0 <= a < vals.len() ==> {
            &&& (#[trigger] vals[a]).pattern.source() == vals[a].regex@
            &&& texts(vals[a].subgroups@) == group_names_of(vals[a].regex@)
        }
}

fn join_detail(name: &Vec<char>, msg: &String) -> (r: Vec<char>)
    ensures
        r@ == name@ + seq![':', ' '] + msg@,
{
    let mut out = slice_of(name, 0, name.len());
    assert(name@.subrange(0, name@.len() as int) =~= name@);
    out.push(':');
    out.push(' ');
    let m = chars_of(msg.as_str());
    let mut i: usize = 0;
    let ghost head = out@;
    while i < m.len()
        invariant
            i <= m@.len(),
            out@ == head + m@.subrange(0, i as int),
        decreases m@.len() - i,
    {
        out.push(m[i]);
        i = i + 1;
        assert(out@ =~= head + m@.subrange(0, i as int));
    }
    assert(m@.subrange(0, m@.len() as int) =~= m@);
    assert(head =~= name@ + seq![':', ' ']);
    out
}

pub open spec fn decl_of(v: TemplateValue) -> (Seq<ValueOption>, Seq<char>, Seq<char>) {
    (v.options@, v.name@, v.regex@)
}

pub open spec fn decls_of(vals: Seq<TemplateValue>) -> Seq<(Seq<ValueOption>, Seq<char>, Seq<char>)> {
    vals.map_values(|v: TemplateValue| decl_of(v))
}

pub open spec fn decl_pairs(d: Seq<(Seq<ValueOption>, Seq<char>, Seq<char>)>) -> Seq<(Seq<char>, Seq<char>)> {
    d.map_values(|x: (Seq<ValueOption>, Seq<char>, Seq<char>)| (x.1, x.2))
}

/// The value declarations (options, name, pattern text) of the template's
/// lines before index `n`, comment lines skipped; or, for the first line that
/// is malformed, repeats a name or has a pattern that does not compile, the
/// rule it breaks, its line (counted from 1) and the offending text.
pub open spec fn value_decls(ls: Seq<Seq<char>>, n: int) -> Result<
    Seq<(Seq<ValueOption>, Seq<char>, Seq<char>)>,
    (CompileErrorKind, int, Seq<char>),
>
    decreases n,
{
    if n <= 0 {
        Ok(Seq::empty())
    } else {
        match value_decls(ls, n - 1) {
            Err(e) => Err(e),
            Ok(acc) => {
                let tl = trimmed(ls[n - 1]);
                if tl.len() == 0 || tl[0] == '#' {
                    Ok(acc)
                } else {
                    match value_line(tl) {
                        Err((k, d)) => Err((k, n, d)),
                        Ok((o, name, p)) => if exists|q: int| 0 <= q < acc.len() && (#[trigger] acc[q]).1 == name {
                            Err((CompileErrorKind::DuplicateValue, n, name))
                        } else if !pattern_compiles(p) {
                            Err((CompileErrorKind::InvalidPattern, n, name + seq![':', ' '] + pattern_error_of(p)))
                        } else {
                            Ok(acc.push((o, name, p)))
                        },
                    }
                }
            },
        }
    }
}

proof fn lemma_value_decls_err_stays(ls: Seq<Seq<char>>, a: int, b: int)
    requires
        a <= b,
        value_decls(ls, a) is Err,
    ensures
        value_decls(ls, b) == value_decls(ls, a),
    decreases b - a,
{
    if a < b {
        lemma_value_decls_err_stays(ls, a, b - 1);
    }
}

proof fn lemma_value_end_bound(ls: Seq<Seq<char>>, i: int)
    requires
        0 <= i < ls.len(),
        !is_blank(ls[i]),
    ensures
        value_end(ls, i) > i,
    decreases ls.len() - i,
{
    assert(value_end(ls, i) == value_end(ls, i + 1));
    if i + 1 < ls.len() && !is_blank(ls[i + 1]) {
        lemma_value_end_bound(ls, i + 1);
    }
}

/// Reads the value section: the lines up to the first blank one. Returns the
/// values, their names and pattern texts as characters, and the index of
/// the blank line (the number of lines where there is none).
#[verifier::loop_isolation(false)]
fn parse_value_section(ls: &Vec<Vec<char>>) -> (r: Result<
    (Vec<TemplateValue>, Vec<(Vec<char>, Vec<char>)>, usize),
    TemplateError,
>)
    ensures
        r matches Ok((vals, pairs, end)) ==> {
            &&& end == value_end(char_lines(ls@), 0)
            &&& values_ok(vals@)
            &&& pair_views(pairs@) == value_pairs(vals@)
            &&& value_decls(char_lines(ls@), end as int) == Ok::<Seq<(Seq<ValueOption>, Seq<char>, Seq<char>)>, (CompileErrorKind, int, Seq<char>)>(decls_of(vals@))
        },
        match value_decls(char_lines(ls@), value_end(char_lines(ls@), 0)) {
            Ok(_) => r is Ok,
            Err((k, n, d)) => r matches Err(TemplateError::TextFSMTemplateError { kind, line, detail })
                && kind == k && line == n && detail@ == d,
        },
        r matches Err(e) ==> e matches TemplateError::TextFSMTemplateError { .. },
        r matches Err(TemplateError::TextFSMTemplateError { kind, .. }) ==> kind
            != CompileErrorKind::UnknownState && kind != CompileErrorKind::MissingStart,
{
    let ghost lsv = char_lines(ls@);
    let mut vals: Vec<TemplateValue> = Vec::new();
    let mut pairs: Vec<(Vec<char>, Vec<char>)> = Vec::new();
    let mut i: usize = 0;
    let mut stop = false;
    assert(pair_views(pairs@) =~= value_pairs(vals@));
    assert(decls_of(vals@) =~= Seq::empty());
    while i < ls.len() && !stop
        invariant
            i <= ls@.len(),
            lsv == char_lines(ls@),
            stop ==> i < ls@.len() && is_blank(lsv[i as int]) && value_end(lsv, 0) == i,
            !stop ==> value_end(lsv, 0) == value_end(lsv, i as int),
            values_ok(vals@),
            pair_views(pairs@) == value_pairs(vals@),
            value_decls(lsv, i as int) == Ok::<Seq<(Seq<ValueOption>, Seq<char>, Seq<char>)>, (CompileErrorKind, int, Seq<char>)>(decls_of(vals@)),
        decreases ls@.len() - i + (if stop { 0int } else { 1int }),
    {
        let line_no = i + 1;
        let tl = trim(&ls[i]);
        assert(lsv[i as int] == ls@[i as int]@);
        if tl.len() == 0 {
            stop = true;
        } else {
            if tl[0] != '#' {
                proof {
                    lemma_value_end_bound(lsv, i as int);
                }
                match parse_value_line(&tl) {
                    Err((kind, detail)) => {
                        proof {
                            lemma_value_decls_err_stays(lsv, i + 1, value_end(lsv, 0));
                        }
                        return Err(rejection(kind, line_no, &detail));
                    },
                    Ok((options, name, pat)) => {
                        let mut k: usize = 0;
                        while k < pairs.len()
                            invariant
                                k <= pairs@.len(),
                                pair_views(pairs@) == value_pairs(vals@),
                                forall|q: int| 0 <= q < k ==> (#[trigger] vals@[q]).name@ != name@,
                            decreases pairs@.len() - k,
                        {
                            assert(pair_views(pairs@).len() == pairs@.len());
                            assert(pair_views(pairs@)[k as int] == value_pairs(vals@)[k as int]);
                            assert(pair_views(pairs@)[k as int] == (pairs@[k as int].0@, pairs@[k as int].1@));
                            assert(value_pairs(vals@)[k as int] == (vals@[k as int].name@, vals@[k as int].regex@));
                            if same(&pairs[k].0, &name) {
                                proof {
                                    assert(decls_of(vals@)[k as int].1 == name@);
                                    lemma_value_decls_err_stays(lsv, i + 1, value_end(lsv, 0));
                                }
                                return Err(rejection(CompileErrorKind::DuplicateValue, line_no, &name));
                            }
                            assert(vals@[k as int].name@ != name@);
                            k = k + 1;
                        }
                        let pattern = match compile_pattern(string_of(&pat)) {
                            Err(msg) => {
                                proof {
                                    lemma_value_decls_err_stays(lsv, i + 1, value_end(lsv, 0));
                                }
                                let d = join_detail(&name, &msg);
                                return Err(rejection(CompileErrorKind::InvalidPattern, line_no, &d));
                            },
                            Ok(p) => p,
                        };
                        let subgroups = group_names(&pattern);
                        let v = TemplateValue {
                            name: string_of(&name),
                            options,
                            regex: string_of(&pat),
                            pattern,
                            subgroups,
                        };
                        let ghost vb = vals@;
                        let ghost pb = pairs@;
                        vals.push(v);
                        pairs.push((name, pat));
                        proof {
                            assert(decls_of(vals@) =~= decls_of(vb).push((options@, name@, pat@)));
                            if exists|q: int| 0 <= q < decls_of(vb).len() && (#[trigger] decls_of(vb)[q]).1 == name@ {
                                let q = choose|q: int| 0 <= q < decls_of(vb).len() && (#[trigger] decls_of(vb)[q]).1 == name@;
                                assert(vb[q].name@ != name@);
                            }
                            assert(pair_views(pairs@) =~= value_pairs(vals@)) by {
                                assert(pair_views(pairs@) =~= pair_views(pb).push((name@, pat@)));
                                assert(value_pairs(vals@) =~= value_pairs(vb).push((name@, pat@)));
                            }
                            assert forall|a: int, b: int| 0 <= a < b < vals@.len() implies vals@[a].name@ != vals@[b].name@ by {
                                if b == vb.len() {
                                    assert(vals@[a] == vb[a]);
                                } else {
                                    assert(vals@[a] == vb[a] && vals@[b] == vb[b]);
                                }
                            }
                            assert forall|a: int| 0 <= a < vals@.len() implies {
                                &&& (#[trigger] vals@[a]).pattern.source() == vals@[a].regex@
                                &&& texts(vals@[a].subgroups@) == group_names_of(vals@[a].regex@)
                            } by {
                                if a < vb.len() {
                                    assert(vals@[a] == vb[a]);
                                }
                            }
                        }
                    },
                }
            }
            i = i + 1;
        }
    }
    Ok((vals, pairs, i))
}

pub open spec fn raw_names(raw: Seq<RawState>) -> Seq<Seq<char>> {
    raw.map_values(|s: RawState| s.name)
}

/// The first rule line of the state `st`, from rule `k` on, that does not
/// compile against the values `vals` and the state names `names`: the rule
/// it breaks, its line and the offending text.
pub open spec fn bad_rule_from(
    st: RawState,
    vals: Seq<(Seq<char>, Seq<char>)>,
    names: Seq<Seq<char>>,
    k: int,
) -> Option<(CompileErrorKind, int, Seq<char>)>
    decreases st.rules.len() - k,
{
    if k < 0 || k >= st.rules.len() {
        None
    } else {
        match rule_check(st.rules[k], vals, names) {
            Some((kind, d)) => Some((kind, st.lines[k], d)),
            None => bad_rule_from(st, vals, names, k + 1),
        }
    }
}

/// The first rule line of the states `raw[s..]`, in text order, that does
/// not compile.
pub open spec fn bad_from(
    raw: Seq<RawState>,
    vals: Seq<(Seq<char>, Seq<char>)>,
    names: Seq<Seq<char>>,
    s: int,
) -> Option<(CompileErrorKind, int, Seq<char>)>
    decreases raw.len() - s,
{
    if s < 0 || s >= raw.len() {
        None
    } else {
        match bad_rule_from(raw[s], vals, names, 0) {
            Some(e) => Some(e),
            None => bad_from(raw, vals, names, s + 1),
        }
    }
}

/// The state section laid out as `lay`, checked: the states, or the first
/// error. The first state must be `Start` (else the error names `Start`,
/// with line 0), and every rule must compile against the values `vals` and
/// the declared states.
pub open spec fn section_outcome(
    lay: Result<Seq<RawState>, (CompileErrorKind, int, Seq<char>)>,
    vals: Seq<(Seq<char>, Seq<char>)>,
) -> Result<Seq<RawState>, (CompileErrorKind, int, Seq<char>)> {
    match lay {
        Err(e) => Err(e),
        Ok(raw) => if raw.len() == 0 || raw[0].name != start_name() {
            Err((CompileErrorKind::MissingStart, 0, start_name()))
        } else {
            match bad_from(raw, vals, raw_names(raw), 0) {
                Some(e) => Err(e),
                None => Ok(raw),
            }
        },
    }
}

/// The states `states` are the states `raw` of the text, in order, each
/// with its rules compiled from their lines against the values `vals`.
pub open spec fn states_from(
    states: Seq<TemplateState>,
    raw: Seq<RawState>,
    vals: Seq<(Seq<char>, Seq<char>)>,
) -> bool {
    &&& states.len() == raw.len()
    &&& forall|s: int|
        0 <= s < raw.len() ==> {
            &&& (#[trigger] states[s]).name@ == raw[s].name
            &&& states[s].rules@.len() == raw[s].rules.len()
            &&& forall|k: int|
                0 <= k < raw[s].rules.len() ==> {
                    let rule = #[trigger] states[s].rules@[k];
                    &&& rule_from_text(rule, raw[s].rules[k], vals)
                    &&& target_fits(rule.target, rule.new_state@, raw_names(raw))
                    &&& (rule.line_op matches LineAction::Continue ==> rule.target == Target::Stay)
                }
        }
}

/// Compiling the template text: its states as laid out in the text, or the
/// first error, with the value section checked before the states.
pub open spec fn compile_outcome(text: Seq<char>) -> Result<Seq<RawState>, (CompileErrorKind, int, Seq<char>)> {
    let ls = lines_of(text);
    match value_decls(ls, value_end(ls, 0)) {
        Err(e) => Err(e),
        Ok(decls) => section_outcome(state_layout(ls), decl_pairs(decls)),
    }
}

/// The template `t` has the values, states and rules that the template
/// text `text` declares, in order, each rule as its line says.
pub open spec fn compiled_from(t: Template, text: Seq<char>) -> bool {
    let ls = lines_of(text);
    &&& value_decls(ls, value_end(ls, 0)) == Ok::<Seq<(Seq<ValueOption>, Seq<char>, Seq<char>)>, (CompileErrorKind, int, Seq<char>)>(decls_of(t.values@))
    &&& match state_layout(ls) {
        Ok(raw) => states_from(t.states@, raw, value_pairs(t.values@)),
        Err(_) => false,
    }
}

/// Reads the state section, the lines `from..` of the template: groups them
/// into states, checks that the first is `Start`, and compiles each rule
/// against the values `vals` (pairs of name and pattern text) and the
/// declared states. Returns the states and their names, or the first error.
#[verifier::loop_isolation(false)]
fn parse_state_section(ls: &Vec<Vec<char>>, from: usize, vals: &Vec<(Vec<char>, Vec<char>)>) -> (r: Result<
    (Vec<TemplateState>, Vec<Vec<char>>),
    TemplateError,
>)
    requires
        from <= ls@.len(),
    ensures
        match section_outcome(layout(char_lines(ls@), from as int, ls@.len() as int), pair_views(vals@)) {
            Ok(raw) => r matches Ok((states, names)) && {
                &&& states_from(states@, raw, pair_views(vals@))
                &&& names_of(names@) == raw_names(raw)
                &&& states@.len() > 0
                &&& states@[0].name@ == start_name()
                &&& forall|a: int, b: int| 0 <= a < b < raw.len() ==> raw[a].name != raw[b].name
            },
            Err((k, n, d)) => r matches Err(
                TemplateError::TextFSMTemplateError { kind, line, detail },
            ) && kind == k && line == n && detail@ == d,
        },
{
    let ghost lsv = char_lines(ls@);
    let ghost pv = pair_views(vals@);
    let raw = match group_states(ls, from) {
        Err(e) => {
            return Err(e);
        },
        Ok(v) => v,
    };
    let ghost rawv = raw_views(raw@);
    proof {
        lemma_layout_distinct(lsv, from as int, lsv.len() as int);
    }
    let start = vec!['S', 't', 'a', 'r', 't'];
    if raw.len() == 0 {
        return Err(rejection(CompileErrorKind::MissingStart, 0, &start));
    }
    if !same(&raw[0].name, &start) {
        assert(rawv[0].name == raw@[0].name@);
        return Err(rejection(CompileErrorKind::MissingStart, 0, &start));
    }
    assert(rawv[0].name == raw@[0].name@);
    let mut names: Vec<Vec<char>> = Vec::new();
    let mut s: usize = 0;
    while s < raw.len()
        invariant
            s <= raw@.len(),
            names@.len() == s,
            forall|q: int| 0 <= q < s ==> (#[trigger] names@[q])@ == rawv[q].name,
        decreases raw@.len() - s,
    {
        assert(rawv[s as int].name == raw@[s as int].name@);
        names.push(slice_of(&raw[s].name, 0, raw[s].name.len()));
        assert(raw@[s as int].name@.subrange(0, raw@[s as int].name@.len() as int) =~= raw@[s as int].name@);
        s = s + 1;
    }
    let ghost rn = raw_names(rawv);
    assert(names_of(names@) =~= rn);
    let mut states: Vec<TemplateState> = Vec::new();
    let mut s: usize = 0;
    while s < raw.len()
        invariant
            s <= raw@.len(),
            states@.len() == s,
            bad_from(rawv, pv, rn, 0) == bad_from(rawv, pv, rn, s as int),
            forall|q: int|
                0 <= q < s ==> {
                    &&& (#[trigger] states@[q]).name@ == rawv[q].name
                    &&& states@[q].rules@.len() == rawv[q].rules.len()
                    &&& forall|k: int|
                        0 <= k < rawv[q].rules.len() ==> {
                            let rule = #[trigger] states@[q].rules@[k];
                            &&& rule_from_text(rule, rawv[q].rules[k], pv)
                            &&& target_fits(rule.target, rule.new_state@, rn)
                            &&& (rule.line_op matches LineAction::Continue ==> rule.target == Target::Stay)
                        }
                },
        decreases raw@.len() - s,
    {
        let st = &raw[s];
        assert(rawv[s as int] == st@);
        let mut rules: Vec<TemplateRule> = Vec::new();
        let mut k: usize = 0;
        while k < st.rules.len()
            invariant
                k <= st.rules@.len(),
                rules@.len() == k,
                bad_rule_from(st@, pv, rn, 0) == bad_rule_from(st@, pv, rn, k as int),
                forall|j: int|
                    0 <= j < k ==> {
                        let rule = #[trigger] rules@[j];
                        &&& rule_from_text(rule, st@.rules[j], pv)
                        &&& target_fits(rule.target, rule.new_state@, rn)
                        &&& (rule.line_op matches LineAction::Continue ==> rule.target == Target::Stay)
                    },
            decreases st.rules@.len() - k,
        {
            assert(st@.rules[k as int] == st.rules@[k as int]@);
            assert(st@.lines[k as int] == st.lines@[k as int] as int);
            match TemplateRule::from_template_line(&st.rules[k], vals, &names, st.lines[k]) {
                Err(e) => {
                    return Err(e);
                },
                Ok(rule) => {
                    rules.push(rule);
                },
            }
            k = k + 1;
        }
        states.push(TemplateState { name: string_of(&st.name), rules });
        s = s + 1;
    }
    Ok((states, names))
}

/// Compiles the template text: its value section, then its states and
/// their rules, each checked as the template language requires. The first
/// violation found is returned, with its line and the offending text.
#[verifier::loop_isolation(false)]
pub fn parse_template(template: &str) -> (r: Result<Template, TemplateError>)
    ensures
        match compile_outcome(template@) {
            Ok(_) => r matches Ok(t) && t.wf() && values_ok(t.values@) && compiled_from(t, template@),
            Err((k, n, d)) => r matches Err(
                TemplateError::TextFSMTemplateError { kind, line, detail },
            ) && kind == k && line == n && detail@ == d,
        },
{
    let chars = chars_of(template);
    let ls = split_lines(&chars);
    let ghost lsv = lines_of(template@);
    let (values, pairs, end) = match parse_value_section(&ls) {
        Err(e) => {
            return Err(e);
        },
        Ok(x) => x,
    };
    assert(decl_pairs(decls_of(values@)) =~= pair_views(pairs@));
    let from = if end < ls.len() {
        end + 1
    } else {
        ls.len()
    };
    assert(state_layout(lsv) == layout(lsv, from as int, lsv.len() as int));
    let (states, names) = match parse_state_section(&ls, from, &pairs) {
        Err(e) => {
            return Err(e);
        },
        Ok(x) => x,
    };
    let ghost rawv = state_layout(lsv)->Ok_0;
    proof {
        assert(section_outcome(state_layout(lsv), pair_views(pairs@)) is Ok);
        assert(names_of(names@).len() == names@.len());
        assert forall|q: int| 0 <= q < names@.len() implies (#[trigger] names@[q])@ == states@[q].name@ by {
            assert(names_of(names@)[q] == rawv[q].name);
        }
    }
    let eof = vec!['E', 'O', 'F'];
    let mut has_eof = false;
    let mut s: usize = 0;
    while s < names.len()
        invariant
            s <= names@.len(),
            names@.len() == states@.len(),
            forall|q: int| 0 <= q < names@.len() ==> (#[trigger] names@[q])@ == states@[q].name@,
            has_eof == exists|q: int| 0 <= q < s && #[trigger] states@[q].name@ == eof_name(),
        decreases names@.len() - s,
    {
        assert(names_of(names@)[s as int] == rawv[s as int].name);
        if same(&names[s], &eof) {
            has_eof = true;
        }
        s = s + 1;
    }
    let mut value_names: Vec<String> = Vec::new();
    let mut i: usize = 0;
    while i < pairs.len()
        invariant
            i <= pairs@.len(),
            value_names@.len() == i,
            forall|q: int| 0 <= q < i ==> (#[trigger] value_names@[q])@ == pairs@[q].0@,
        decreases pairs@.len() - i,
    {
        value_names.push(string_of(&pairs[i].0));
        i = i + 1;
    }
    let t = Template { values, names: value_names, states, has_eof };
    proof {
        assert(state_names(t.states@) =~= raw_names(rawv));
        assert(pair_views(pairs@).len() == pairs@.len());
        assert(value_pairs(t.values@).len() == t.values@.len());
        assert forall|q: int| 0 <= q < t.values@.len() implies #[trigger] t.names@[q]@ == t.values@[q].name@ by {
            assert(pair_views(pairs@)[q] == value_pairs(t.values@)[q]);
            assert(pair_views(pairs@)[q] == (pairs@[q].0@, pairs@[q].1@));
            assert(value_pairs(t.values@)[q] == (t.values@[q].name@, t.values@[q].regex@));
        }
        assert forall|a: int, b: int| 0 <= a < b < t.states@.len() implies t.states@[a].name@ != t.states@[b].name@ by {
            assert(t.states@[a].name@ == rawv[a].name);
            assert(t.states@[b].name@ == rawv[b].name);
        }
        assert forall|q: int, k: int| 0 <= q < t.states@.len() && 0 <= k < t.states@[q].rules@.len() implies {
                let r = #[trigger] t.states@[q].rules@[k];
                &&& r.target_ok(t.states@)
                &&& (r.line_op matches LineAction::Continue ==> r.target == Target::Stay)
            } by {
            let r = t.states@[q].rules@[k];
            assert(target_fits(r.target, r.new_state@, raw_names(rawv)));
        }
        assert(t.wf());
        assert(value_pairs(t.values@) =~= pair_views(pairs@));
        assert(compiled_from(t, template@));
    }
    Ok(t)
}

} // verus!
