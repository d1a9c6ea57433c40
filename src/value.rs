//! Value cells and the life-cycle hooks that the value options define.
use vstd::prelude::*;
use crate::pattern::{group_of, opt_text, texts};
use crate::template::{has_opt, has_option, TemplateValue, ValueOption};

verus! {

/// One entry of a List value: the captured text, or the named sub-groups
/// of the value's pattern with what each captured.
#[derive(PartialEq, Eq, Debug)]
pub enum Item {
    Scalar(String),
    Group(Vec<(String, String)>),
}

/// What a value holds: text for a plain value, a sequence for a List value.
#[derive(PartialEq, Eq, Debug)]
pub enum Cell {
    Text(String),
    Items(Vec<Item>),
}

/// One emitted record: one cell per declared value, in declaration order.
#[derive(PartialEq, Eq, Debug)]
pub struct Record {
    pub values: Vec<Cell>,
}

pub enum ItemModel {
    Scalar(Seq<char>),
    Group(Seq<(Seq<char>, Seq<char>)>),
}

pub enum CellModel {
    Text(Seq<char>),
    Items(Seq<ItemModel>),
}

/// The runtime state of one value: what it holds now, and what it keeps
/// across a `Clear` (Filldown and Fillup values only).
pub struct Slot {
    pub current: Cell,
    pub carry: Cell,
}

pub struct SlotModel {
    pub current: CellModel,
    pub carry: CellModel,
}

pub open spec fn pair_texts(v: Seq<(String, String)>) -> Seq<(Seq<char>, Seq<char>)> {
    v.map_values(|p: (String, String)| (p.0@, p.1@))
}

impl View for Item {
    type V = ItemModel;

    open spec fn view(&self) -> ItemModel {
        match self {
            Item::Scalar(s) => ItemModel::Scalar(s@),
            Item::Group(v) => ItemModel::Group(pair_texts(v@)),
        }
    }
}

pub open spec fn item_views(v: Seq<Item>) -> Seq<ItemModel> {
    v.map_values(|i: Item| i@)
}

impl View for Cell {
    type V = CellModel;

    open spec fn view(&self) -> CellModel {
        match self {
            Cell::Text(s) => CellModel::Text(s@),
            Cell::Items(v) => CellModel::Items(item_views(v@)),
        }
    }
}

pub open spec fn cell_views(v: Seq<Cell>) -> Seq<CellModel> {
    v.map_values(|c: Cell| c@)
}

impl View for Record {
    type V = Seq<CellModel>;

    open spec fn view(&self) -> Seq<CellModel> {
        cell_views(self.values@)
    }
}

pub open spec fn record_views(v: Seq<Record>) -> Seq<Seq<CellModel>> {
    v.map_values(|r: Record| r@)
}

impl View for Slot {
    type V = SlotModel;

    open spec fn view(&self) -> SlotModel {
        SlotModel { current: self.current@, carry: self.carry@ }
    }
}

pub open spec fn slot_views(v: Seq<Slot>) -> Seq<SlotModel> {
    v.map_values(|s: Slot| s@)
}

/// An unset cell of value `v`.
pub open spec fn empty_cell(v: TemplateValue) -> CellModel {
    if has_opt(v, ValueOption::List) {
        CellModel::Items(Seq::empty())
    } else {
        CellModel::Text(Seq::empty())
    }
}

pub open spec fn is_empty(c: CellModel) -> bool {
    match c {
        CellModel::Text(s) => s.len() == 0,
        CellModel::Items(s) => s.len() == 0,
    }
}

/// Whether a `Clear` keeps the value's last remembered content.
pub open spec fn keeps(v: TemplateValue) -> bool {
    has_opt(v, ValueOption::Filldown) || has_opt(v, ValueOption::Fillup)
}

pub open spec fn items_of(c: CellModel) -> Seq<ItemModel> {
    match c {
        CellModel::Items(s) => s,
        CellModel::Text(_) => Seq::empty(),
    }
}

/// The sub-groups among `names` that took part in the match, in order.
pub open spec fn pairs_of(names: Seq<Seq<char>>, caps: Map<Seq<char>, Seq<char>>) -> Seq<
    (Seq<char>, Seq<char>),
>
    decreases names.len(),
{
    if names.len() == 0 {
        Seq::empty()
    } else {
        let rest = pairs_of(names.drop_last(), caps);
        if caps.contains_key(names.last()) {
            rest.push((names.last(), caps[names.last()]))
        } else {
            rest
        }
    }
}

/// The entry a List value appends for a match that captured `text`.
pub open spec fn item_for(v: TemplateValue, caps: Map<Seq<char>, Seq<char>>, text: Seq<char>) -> ItemModel {
    let g = pairs_of(texts(v.subgroups@), caps);
    if g.len() > 1 {
        ItemModel::Group(g)
    } else {
        ItemModel::Scalar(text)
    }
}

/// The slot after a match in which the value's group captured `text`.
pub open spec fn assigned(
    v: TemplateValue,
    s: SlotModel,
    caps: Map<Seq<char>, Seq<char>>,
    text: Seq<char>,
) -> SlotModel {
    let cur = if has_opt(v, ValueOption::List) {
        CellModel::Items(items_of(s.current).push(item_for(v, caps, text)))
    } else {
        CellModel::Text(text)
    };
    SlotModel { current: cur, carry: if keeps(v) { cur } else { s.carry } }
}

/// The slot after a `Clear`.
pub open spec fn cleared(v: TemplateValue, s: SlotModel) -> SlotModel {
    SlotModel { current: if keeps(v) { s.carry } else { empty_cell(v) }, carry: s.carry }
}

/// The slot after a `ClearAll`, and at the start of a run.
pub open spec fn fresh(v: TemplateValue) -> SlotModel {
    SlotModel { current: empty_cell(v), carry: empty_cell(v) }
}

pub fn copy_text(s: &String) -> (r: String)
    ensures
        r@ == s@,
{
    s.clone()
}

pub fn copy_item(it: &Item) -> (r: Item)
    ensures
        r@ == it@,
{
    match it {
        Item::Scalar(s) => Item::Scalar(copy_text(s)),
        Item::Group(v) => {
            let mut out: Vec<(String, String)> = Vec::new();
            let mut i: usize = 0;
            while i < v.len()
                invariant
                    i <= v@.len(),
                    out@.len() == i,
                    forall|j: int| 0 <= j < i ==> (#[trigger] out@[j]).0@ == v@[j].0@ && out@[j].1@ == v@[j].1@,
                decreases v@.len() - i,
            {
                let p = (copy_text(&v[i].0), copy_text(&v[i].1));
                out.push(p);
                i = i + 1;
            }
            assert(pair_texts(out@) =~= pair_texts(v@));
            Item::Group(out)
        },
    }
}

pub fn copy_cell(c: &Cell) -> (r: Cell)
    ensures
        r@ == c@,
{
    match c {
        Cell::Text(s) => Cell::Text(copy_text(s)),
        Cell::Items(v) => {
            let mut out: Vec<Item> = Vec::new();
            let mut i: usize = 0;
            while i < v.len()
                invariant
                    i <= v@.len(),
                    out@.len() == i,
                    forall|j: int| 0 <= j < i ==> (#[trigger] out@[j])@ == v@[j]@,
                decreases v@.len() - i,
            {
                out.push(copy_item(&v[i]));
                i = i + 1;
            }
            assert(item_views(out@) =~= item_views(v@));
            Cell::Items(out)
        },
    }
}

/// An unset cell of value `v`.
pub fn new_empty_cell(v: &TemplateValue) -> (r: Cell)
    ensures
        r@ == empty_cell(*v),
{
    if has_option(v, ValueOption::List) {
        let r = Cell::Items(Vec::new());
        assert(item_views(Seq::<Item>::empty()) =~= Seq::empty());
        r
    } else {
        let r = Cell::Text(String::new());
        assert(r@ == CellModel::Text(Seq::empty()));
        r
    }
}

pub fn cell_is_empty(c: &Cell) -> (r: bool)
    ensures
        r == is_empty(c@),
{
    match c {
        Cell::Text(s) => s.as_str().unicode_len() == 0,
        Cell::Items(v) => v.len() == 0,
    }
}

/// Whether a `Clear` keeps the value's last remembered content.
pub fn keeps_value(v: &TemplateValue) -> (r: bool)
    ensures
        r == keeps(*v),
{
    has_option(v, ValueOption::Filldown) || has_option(v, ValueOption::Fillup)
}

impl Slot {
    /// The slot of value `v` at the start of a run, and after a `ClearAll`.
    pub fn fresh(v: &TemplateValue) -> (r: Slot)
        ensures
            r@ == fresh(*v),
    {
        Slot { current: new_empty_cell(v), carry: new_empty_cell(v) }
    }

    /// Reset on a `Clear`: Filldown and Fillup values return to what they
    /// remember, the others become unset.
    pub fn on_clear(&mut self, v: &TemplateValue)
        ensures
            final(self)@ == cleared(*v, old(self)@),
    {
        if keeps_value(v) {
            self.current = copy_cell(&self.carry);
        } else {
            self.current = new_empty_cell(v);
        }
    }

    /// Reset on a `ClearAll`: the value forgets everything.
    pub fn on_clear_all(&mut self, v: &TemplateValue)
        ensures
            final(self)@ == fresh(*v),
    {
        self.current = new_empty_cell(v);
        self.carry = new_empty_cell(v);
    }

    /// Take in `text`, which the value's group captured in a match with
    /// captures `caps`; for a List value, `subs` holds what each named
    /// sub-group of the value's pattern captured there.
    pub fn on_match(
        &mut self,
        v: &TemplateValue,
        text: String,
        subs: &Vec<Option<String>>,
        Ghost(caps): Ghost<Map<Seq<char>, Seq<char>>>,
    )
        requires
            has_opt(*v, ValueOption::List) ==> subs@.len() == v.subgroups@.len() && forall|i: int|
                0 <= i < subs@.len() ==> opt_text(#[trigger] subs@[i]) == group_of(
                    caps,
                    v.subgroups@[i]@,
                ),
        ensures
            final(self)@ == assigned(*v, old(self)@, caps, text@),
    {
        let ghost old_self = self@;
        if has_option(v, ValueOption::List) {
            let g = sub_pairs(v, subs, Ghost(caps));
            let item = if g.len() > 1 {
                Item::Group(g)
            } else {
                Item::Scalar(text)
            };
            let mut items = items_copy(&self.current);
            let ghost before = items@;
            items.push(item);
            assert(item_views(items@) =~= item_views(before).push(items@.last()@));
            self.current = Cell::Items(items);
            assert(self.current@ == CellModel::Items(items_of(old_self.current).push(item_for(*v, caps, text@))));
        } else {
            self.current = Cell::Text(text);
        }
        if keeps_value(v) {
            self.carry = copy_cell(&self.current);
        }
    }
}

/// A copy of the entries of a List cell; empty for a text cell.
fn items_copy(c: &Cell) -> (r: Vec<Item>)
    ensures
        item_views(r@) == items_of(c@),
{
    match copy_cell(c) {
        Cell::Items(x) => x,
        Cell::Text(_) => {
            let r: Vec<Item> = Vec::new();
            assert(item_views(r@) =~= Seq::empty());
            r
        },
    }
}

/// The participating sub-groups of `v` with their texts, in order.
fn sub_pairs(v: &TemplateValue, subs: &Vec<Option<String>>, Ghost(caps): Ghost<
    Map<Seq<char>, Seq<char>>,
>) -> (r: Vec<(String, String)>)
    requires
        subs@.len() == v.subgroups@.len(),
        forall|i: int|
            0 <= i < subs@.len() ==> opt_text(#[trigger] subs@[i]) == group_of(
                caps,
                v.subgroups@[i]@,
            ),
    ensures
        pair_texts(r@) == pairs_of(texts(v.subgroups@), caps),
{
    let mut out: Vec<(String, String)> = Vec::new();
    let mut i: usize = 0;
    while i < subs.len()
        invariant
            i <= subs@.len(),
            subs@.len() == v.subgroups@.len(),
            forall|j: int|
                0 <= j < subs@.len() ==> opt_text(#[trigger] subs@[j]) == group_of(
                    caps,
                    v.subgroups@[j]@,
                ),
            pair_texts(out@) == pairs_of(texts(v.subgroups@).subrange(0, i as int), caps),
        decreases subs@.len() - i,
    {
        let ghost names = texts(v.subgroups@);
        assert(names.subrange(0, i + 1).drop_last() =~= names.subrange(0, i as int));
        assert(opt_text(subs@[i as int]) == group_of(caps, v.subgroups@[i as int]@));
        match &subs[i] {
            Some(s) => {
                let ghost before = out@;
                out.push((copy_text(&v.subgroups[i]), copy_text(s)));
                assert(pair_texts(out@) =~= pair_texts(before).push(
                    (v.subgroups@[i as int]@, s@),
                ));
            },
            None => {},
        }
        i = i + 1;
    }
    assert(texts(v.subgroups@).subrange(0, subs@.len() as int) =~= texts(v.subgroups@));
    out
}

} // verus!
