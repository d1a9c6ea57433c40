//! Properties of compiling and running templates, proved over the
//! specifications of `parse_template` and `run`.
use vstd::prelude::*;
use crate::engine::{
    apply_captures, blocked, clear_slots, currents, empty_from, move_to, record_op, run_outcome,
    run_prefix, rule_count, try_rules, RunState,
};
use crate::grammar::{rule_parts, LineOp};
use crate::template::{
    bad_from, bad_rule_from, compile_outcome, decl_pairs, decls_of, op_of, third_of, rule_check, unknown_target, value_decls,
    value_end, CompileErrorKind, RawState, action_part, compiled_from, end_name, eof_name, has_opt, raw_names, start_name, state_layout,
    state_names, RecordAction, Template, TemplateError, ValueOption,
};
use crate::syntax::trimmed;
use crate::text::lines_of;
use crate::value::{is_empty, item_for, items_of, keeps, record_views, Record, SlotModel};

verus! {

/// Two runs of one template over one text yield the same records, or the
/// same error.
pub proof fn law_deterministic(
    t: Template,
    input: Seq<char>,
    a: Result<Vec<Record>, TemplateError>,
    b: Result<Vec<Record>, TemplateError>,
)
    requires
        run_outcome(t, input, a),
        run_outcome(t, input, b),
    ensures
        a is Ok <==> b is Ok,
        a matches Ok(x) ==> b matches Ok(y) && record_views(x@) == record_views(y@),
        a matches Err(TemplateError::TextFsmError { message: m1, line: l1 }) ==> b matches Err(
            TemplateError::TextFsmError { message: m2, line: l2 },
        ) && m1@ == m2@ && l1 == l2,
{
}

/// Every Filldown and Fillup value holds what it remembers.
pub open spec fn slots_agree(t: Template, st: RunState) -> bool {
    &&& st.slots.len() == t.values@.len()
    &&& forall|i: int|
        0 <= i < st.slots.len() && keeps(t.values@[i]) ==> (#[trigger] st.slots[i]).current
            == st.slots[i].carry
}

proof fn lemma_agree_record_op(t: Template, op: RecordAction, st: RunState)
    requires
        slots_agree(t, st),
    ensures
        slots_agree(t, record_op(t, op, st)),
{
}

proof fn lemma_agree_move(t: Template, st: RunState, target: crate::template::Target)
    requires
        slots_agree(t, st),
    ensures
        slots_agree(t, move_to(t, st, target)),
{
}

proof fn lemma_agree_try_rules(t: Template, st: RunState, line: Seq<char>, k: int, n: int)
    requires
        slots_agree(t, st),
        k >= 0,
    ensures
        try_rules(t, st, line, k, n) matches Ok(st2) ==> slots_agree(t, st2),
    decreases rule_count(t, st) - k,
{
    if k < rule_count(t, st) {
        let rule = t.states@[st.state].rules@[k];
        match crate::pattern::captures_of(rule.pattern.source(), line) {
            None => {
                lemma_agree_try_rules(t, st, line, k + 1, n);
            },
            Some(caps) => {
                let st1 = RunState { slots: apply_captures(t, st.slots, caps), ..st };
                assert(slots_agree(t, st1));
                let st2 = record_op(t, rule.record_op, st1);
                lemma_agree_record_op(t, rule.record_op, st1);
                lemma_agree_move(t, st2, rule.target);
                match rule.line_op {
                    crate::template::LineAction::Continue => {
                        lemma_agree_try_rules(t, st2, line, k + 1, n);
                    },
                    _ => {},
                }
            },
        }
    }
}

proof fn lemma_agree_prefix(t: Template, lines: Seq<Seq<char>>, n: int)
    ensures
        run_prefix(t, lines, n) matches Ok(st) ==> slots_agree(t, st),
    decreases n,
{
    if n > 0 {
        lemma_agree_prefix(t, lines, n - 1);
        if let Ok(st) = run_prefix(t, lines, n - 1) {
            if !st.halted {
                lemma_agree_try_rules(t, st, lines[n - 1], 0, n);
            }
        }
    }
}

/// In every state that a run reaches, a `Record` or a `Clear` action leaves
/// a Filldown value as it was: it keeps what it last captured until a
/// `ClearAll` or a new capture.
pub proof fn law_filldown_persistence(
    t: Template,
    lines: Seq<Seq<char>>,
    n: int,
    st: RunState,
    op: RecordAction,
    i: int,
)
    requires
        run_prefix(t, lines, n) == Ok::<RunState, (Seq<char>, int)>(st),
        op == RecordAction::Record || op == RecordAction::Clear,
        0 <= i < t.values@.len(),
        has_opt(t.values@[i], ValueOption::Filldown),
    ensures
        record_op(t, op, st).slots[i] == st.slots[i],
{
    lemma_agree_prefix(t, lines, n);
}

/// A `Record` action while a Required value is unset appends nothing, and
/// still clears the values as an emitted record would.
pub proof fn law_required_suppression(t: Template, st: RunState, i: int)
    requires
        0 <= i < st.slots.len(),
        has_opt(t.values@[i], ValueOption::Required),
        is_empty(st.slots[i].current),
    ensures
        record_op(t, RecordAction::Record, st).records == st.records,
        record_op(t, RecordAction::Record, st).slots == clear_slots(t, st.slots),
{
    assert(blocked(t, st.slots));
}

/// A match that captures a List value appends one entry after the entries
/// it held, so repeated matches appear in the order of the matching lines.
pub proof fn law_list_ordering(
    t: Template,
    slots: Seq<SlotModel>,
    caps: Map<Seq<char>, Seq<char>>,
    i: int,
)
    requires
        0 <= i < slots.len(),
        has_opt(t.values@[i], ValueOption::List),
        caps.contains_key(t.values@[i].name@),
    ensures
        items_of(apply_captures(t, slots, caps)[i].current) == items_of(slots[i].current).push(
            item_for(t.values@[i], caps, caps[t.values@[i].name@]),
        ),
{
}

/// When a record is emitted with a Fillup value set, each earlier record
/// from which on that column was unset in every record takes the value;
/// all other columns and records stay as they were.
pub proof fn law_fillup_backpropagation(
    t: Template,
    st: RunState,
    i: int,
    j: int,
)
    requires
        !blocked(t, st.slots),
        st.slots.len() == t.values@.len(),
        0 <= i < t.values@.len(),
        0 <= j < st.records.len(),
        st.records[j].len() == t.values@.len(),
        has_opt(t.values@[i], ValueOption::Fillup),
        !is_empty(st.slots[i].current),
        empty_from(st.records, i, j),
    ensures
        record_op(t, RecordAction::Record, st).records.len() == st.records.len() + 1,
        record_op(t, RecordAction::Record, st).records[j][i] == st.slots[i].current,
        record_op(t, RecordAction::Record, st).records[st.records.len() as int] == currents(
            st.slots,
        ),
{
}

/// The state name that a rule line names, unless its action is `Error`.
pub open spec fn target_text(text: Seq<char>) -> Option<Seq<char>> {
    match action_part(rule_parts(trimmed(text)).1) {
        Some((op, _, x)) => if op == LineOp::Error {
            None
        } else {
            Some(x)
        },
        None => None,
    }
}

/// A template compiles only if its first state is `Start` and every rule
/// names as its new state nothing, `End`, `EOF` or a declared state.
pub proof fn law_compile_validation(text: Seq<char>, t: Template)
    requires
        t.wf(),
        compiled_from(t, text),
    ensures
        state_layout(lines_of(text)) matches Ok(raw) && {
            &&& raw.len() > 0
            &&& raw[0].name == start_name()
            &&& forall|s: int, k: int|
                0 <= s < raw.len() && 0 <= k < raw[s].rules.len() ==> (#[trigger] target_text(
                    raw[s].rules[k],
                ) matches Some(x) ==> x.len() == 0 || x == end_name() || x == eof_name()
                    || raw_names(raw).contains(x))
        },
{
    let raw = state_layout(lines_of(text))->Ok_0;
    assert(state_names(t.states@) =~= raw_names(raw));
    assert forall|s: int, k: int|
        0 <= s < raw.len() && 0 <= k < raw[s].rules.len() implies (#[trigger] target_text(
            raw[s].rules[k],
        ) matches Some(x) ==> x.len() == 0 || x == end_name() || x == eof_name()
            || raw_names(raw).contains(x)) by {
        let r = t.states@[s].rules@[k];
        assert(t.states@[s].name@ == raw[s].name);
        assert(crate::template::rule_from_text(r, raw[s].rules[k], crate::template::value_pairs(t.values@)));
        assert(r.target_ok(t.states@));
        if let crate::template::Target::State(j) = r.target {
            assert(raw_names(raw)[j as int] == r.new_state@);
        }
    }
}

/// The captures `cs`, one match after another, taken in by the slots `s`.
pub open spec fn apply_all(t: Template, s: Seq<SlotModel>, cs: Seq<Map<Seq<char>, Seq<char>>>) -> Seq<SlotModel>
    decreases cs.len(),
{
    if cs.len() == 0 {
        s
    } else {
        apply_captures(t, apply_all(t, s, cs.drop_last()), cs.last())
    }
}

/// Over a run of matches that each capture the List value `i`, with no
/// clearing between them, the value holds what it held before followed by
/// one entry per match, in the order of the matches.
pub proof fn law_list_sequence(t: Template, s: Seq<SlotModel>, cs: Seq<Map<Seq<char>, Seq<char>>>, i: int)
    requires
        0 <= i < s.len(),
        has_opt(t.values@[i], ValueOption::List),
        forall|j: int| 0 <= j < cs.len() ==> (#[trigger] cs[j]).contains_key(t.values@[i].name@),
    ensures
        apply_all(t, s, cs).len() == s.len(),
        items_of(apply_all(t, s, cs)[i].current) == items_of(s[i].current) + Seq::new(
            cs.len(),
            |j: int| item_for(t.values@[i], cs[j], cs[j][t.values@[i].name@]),
        ),
    decreases cs.len(),
{
    let v = t.values@[i];
    let entries = Seq::new(cs.len(), |j: int| item_for(v, cs[j], cs[j][v.name@]));
    if cs.len() == 0 {
        assert(items_of(s[i].current) + entries =~= items_of(s[i].current));
    } else {
        let init = cs.drop_last();
        law_list_sequence(t, s, init, i);
        let prev = apply_all(t, s, init);
        let before = Seq::new(init.len(), |j: int| item_for(v, init[j], init[j][v.name@]));
        law_list_ordering(t, prev, cs.last(), i);
        assert(items_of(s[i].current) + entries =~= (items_of(s[i].current) + before).push(
            item_for(v, cs.last(), cs.last()[v.name@]),
        ));
    }
}

/// A rule's failure, placed at its line.
pub open spec fn located(c: Option<(CompileErrorKind, Seq<char>)>, line: int) -> Option<
    (CompileErrorKind, int, Seq<char>),
> {
    match c {
        Some((k, d)) => Some((k, line, d)),
        None => None,
    }
}

proof fn lemma_rules_fine_from(st: RawState, vals: Seq<(Seq<char>, Seq<char>)>, names: Seq<Seq<char>>, k: int)
    requires
        0 <= k,
        forall|j: int| k <= j < st.rules.len() ==> rule_check(#[trigger] st.rules[j], vals, names) is None,
    ensures
        bad_rule_from(st, vals, names, k) is None,
    decreases st.rules.len() - k,
{
    if k < st.rules.len() {
        lemma_rules_fine_from(st, vals, names, k + 1);
    }
}

proof fn lemma_bad_rule_at(st: RawState, vals: Seq<(Seq<char>, Seq<char>)>, names: Seq<Seq<char>>, k: int, k0: int)
    requires
        0 <= k <= k0 < st.rules.len(),
        forall|j: int| k <= j < k0 ==> rule_check(#[trigger] st.rules[j], vals, names) is None,
        rule_check(st.rules[k0], vals, names) is Some,
    ensures
        bad_rule_from(st, vals, names, k) == located(rule_check(st.rules[k0], vals, names), st.lines[k0]),
    decreases k0 - k,
{
    if k < k0 {
        lemma_bad_rule_at(st, vals, names, k + 1, k0);
    }
}

proof fn lemma_bad_state_at(
    raw: Seq<RawState>,
    vals: Seq<(Seq<char>, Seq<char>)>,
    names: Seq<Seq<char>>,
    s: int,
    s0: int,
    k0: int,
)
    requires
        0 <= s <= s0 < raw.len(),
        0 <= k0 < raw[s0].rules.len(),
        forall|q: int, j: int| s <= q < raw.len() && 0 <= j < raw[q].rules.len() && (q, j) != (s0, k0)
            ==> rule_check(#[trigger] raw[q].rules[j], vals, names) is None,
        rule_check(raw[s0].rules[k0], vals, names) is Some,
    ensures
        bad_from(raw, vals, names, s) == located(rule_check(raw[s0].rules[k0], vals, names), raw[s0].lines[k0]),
    decreases s0 - s,
{
    if s < s0 {
        assert forall|j: int| 0 <= j < raw[s].rules.len() implies rule_check(#[trigger] raw[s].rules[j], vals, names) is None by {
            assert((s, j) != (s0, k0));
        }
        lemma_rules_fine_from(raw[s], vals, names, 0);
        lemma_bad_state_at(raw, vals, names, s + 1, s0, k0);
    } else {
        assert forall|j: int| 0 <= j < k0 implies rule_check(#[trigger] raw[s0].rules[j], vals, names) is None by {
            assert((s0, j) != (s0, k0));
        }
        lemma_bad_rule_at(raw[s0], vals, names, 0, k0);
    }
}

/// A template whose value section and state layout are sound, whose first
/// state is `Start`, and whose only faulty rule line names a new state that
/// is neither declared nor `End` or `EOF`, fails to compile with an
/// `UnknownState` error that names that state, at that rule's line.
pub proof fn law_unknown_state_named(text: Seq<char>, s0: int, k0: int, x: Seq<char>)
    requires
        value_decls(lines_of(text), value_end(lines_of(text), 0)) is Ok,
        state_layout(lines_of(text)) is Ok,
        ({
            let raw = state_layout(lines_of(text))->Ok_0;
            let vals = decl_pairs(value_decls(lines_of(text), value_end(lines_of(text), 0))->Ok_0);
            &&& raw.len() > 0
            &&& raw[0].name == start_name()
            &&& 0 <= s0 < raw.len()
            &&& 0 <= k0 < raw[s0].rules.len()
            &&& rule_check(raw[s0].rules[k0], vals, raw_names(raw)) == Some((CompileErrorKind::UnknownState, x))
            &&& forall|q: int, j: int| 0 <= q < raw.len() && 0 <= j < raw[q].rules.len() && (q, j) != (s0, k0)
                ==> rule_check(#[trigger] raw[q].rules[j], vals, raw_names(raw)) is None
        }),
    ensures
        compile_outcome(text) == Err::<Seq<RawState>, (CompileErrorKind, int, Seq<char>)>(
            (CompileErrorKind::UnknownState, state_layout(lines_of(text))->Ok_0[s0].lines[k0], x),
        ),
        unknown_target(x, raw_names(state_layout(lines_of(text))->Ok_0)),
{
    let raw = state_layout(lines_of(text))->Ok_0;
    let vals = decl_pairs(value_decls(lines_of(text), value_end(lines_of(text), 0))->Ok_0);
    lemma_bad_state_at(raw, vals, raw_names(raw), 0, s0, k0);
}

/// Two templates compiled from one text declare the same values (options,
/// names and patterns) in declaration order, and the same states in text
/// order, with rules of the same kinds in the same order.
pub proof fn law_compile_deterministic(text: Seq<char>, a: Template, b: Template)
    requires
        compiled_from(a, text),
        compiled_from(b, text),
    ensures
        decls_of(a.values@) == decls_of(b.values@),
        a.states@.len() == b.states@.len(),
        forall|s: int| 0 <= s < a.states@.len() ==> {
            &&& (#[trigger] a.states@[s]).name@ == b.states@[s].name@
            &&& a.states@[s].rules@.len() == b.states@[s].rules@.len()
            &&& forall|k: int| 0 <= k < a.states@[s].rules@.len() ==> {
                &&& (#[trigger] a.states@[s].rules@[k]).regex@ == b.states@[s].rules@[k].regex@
                &&& a.states@[s].rules@[k].record_op == b.states@[s].rules@[k].record_op
                &&& op_of(a.states@[s].rules@[k].line_op) == op_of(b.states@[s].rules@[k].line_op)
                &&& third_of(a.states@[s].rules@[k]) == third_of(b.states@[s].rules@[k])
            }
        },
{
    let raw = state_layout(lines_of(text))->Ok_0;
    assert forall|s: int| 0 <= s < a.states@.len() implies {
            &&& (#[trigger] a.states@[s]).name@ == b.states@[s].name@
            &&& a.states@[s].rules@.len() == b.states@[s].rules@.len()
            &&& forall|k: int| 0 <= k < a.states@[s].rules@.len() ==> {
                &&& (#[trigger] a.states@[s].rules@[k]).regex@ == b.states@[s].rules@[k].regex@
                &&& a.states@[s].rules@[k].record_op == b.states@[s].rules@[k].record_op
                &&& op_of(a.states@[s].rules@[k].line_op) == op_of(b.states@[s].rules@[k].line_op)
                &&& third_of(a.states@[s].rules@[k]) == third_of(b.states@[s].rules@[k])
            }
        } by {
        assert(b.states@[s].name@ == raw[s].name);
        assert forall|k: int| 0 <= k < a.states@[s].rules@.len() implies {
                &&& (#[trigger] a.states@[s].rules@[k]).regex@ == b.states@[s].rules@[k].regex@
                &&& a.states@[s].rules@[k].record_op == b.states@[s].rules@[k].record_op
                &&& op_of(a.states@[s].rules@[k].line_op) == op_of(b.states@[s].rules@[k].line_op)
                &&& third_of(a.states@[s].rules@[k]) == third_of(b.states@[s].rules@[k])
            } by {
            let rb = b.states@[s].rules@[k];
            assert(crate::template::rule_from_text(rb, raw[s].rules[k], crate::template::value_pairs(b.values@)));
            assert(crate::template::value_pairs(a.values@) =~= crate::template::value_pairs(b.values@)) by {
                assert(decls_of(a.values@).len() == a.values@.len());
                assert(decls_of(b.values@).len() == b.values@.len());
                assert forall|q: int| 0 <= q < a.values@.len() implies crate::template::value_pairs(a.values@)[q] == crate::template::value_pairs(b.values@)[q] by {
                    assert(decls_of(a.values@)[q] == decls_of(b.values@)[q]);
                }
            }
        }
    }
}

} // verus!
