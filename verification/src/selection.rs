use vstd::prelude::*;

use crate::input::{default_json_limits, JsonLimits};
use crate::text::str_equal;

verus! {

/// One step of a selection path: a field by name or an item by position.
#[derive(Clone, Debug, PartialEq, Eq, Hash)]
pub enum SelectionSegment {
    Field(String),
    Index(usize),
}

/// A selection step as plain values.
pub enum SegmentView {
    Field(Seq<char>),
    Index(usize),
}

impl View for SelectionSegment {
    type V = SegmentView;

    open spec fn view(&self) -> SegmentView {
        match self {
            SelectionSegment::Field(name) => SegmentView::Field(name@),
            SelectionSegment::Index(index) => SegmentView::Index(*index),
        }
    }
}

/// A path of selection steps from the serialized root.
#[derive(Clone, Debug, PartialEq, Eq)]
pub struct SelectionPath {
    segments: Vec<SelectionSegment>,
}

/// A sequence of selection steps as plain values.
pub open spec fn steps_of(segments: Seq<SelectionSegment>) -> Seq<SegmentView> {
    segments.map_values(|s: SelectionSegment| s@)
}

impl View for SelectionPath {
    type V = Seq<SegmentView>;

    closed spec fn view(&self) -> Seq<SegmentView> {
        steps_of(self.segments@)
    }
}

impl SelectionPath {
    pub fn new(segments: Vec<SelectionSegment>) -> (r: SelectionPath)
        ensures
            r@ == steps_of(segments@),
    {
        SelectionPath { segments }
    }

    /// The path made of one field.
    pub fn field(name: &str) -> (r: SelectionPath)
        ensures
            r@ == seq![SegmentView::Field(name@)],
    {
        let r = SelectionPath::new(vec![SelectionSegment::Field(name.to_string())]);
        assert(r@ =~= seq![SegmentView::Field(name@)]);
        r
    }

    pub fn segments(&self) -> (r: &[SelectionSegment])
        ensures
            steps_of(r@) == self@,
    {
        self.segments.as_slice()
    }
}

/// How output is shaped: limits, aliases, omissions and the selected paths.
#[derive(Clone, Debug, PartialEq, Eq)]
pub struct SerializationOptions {
    pub limits: JsonLimits,
    pub by_alias: bool,
    pub exclude_none: bool,
    pub exclude_defaults: bool,
    pub included: Vec<SelectionPath>,
    pub exclude: Vec<SelectionPath>,
}

impl Default for SerializationOptions {
    fn default() -> (r: SerializationOptions)
        ensures
            r.limits == default_json_limits(),
            !r.by_alias,
            !r.exclude_none,
            !r.exclude_defaults,
            r.included@.len() == 0,
            r.exclude@.len() == 0,
    {
        SerializationOptions {
            limits: JsonLimits::default(),
            by_alias: false,
            exclude_none: false,
            exclude_defaults: false,
            included: Vec::new(),
            exclude: Vec::new(),
        }
    }
}

/// The selection paths of a list, as plain values.
pub open spec fn paths_of(paths: Seq<SelectionPath>) -> Seq<Seq<SegmentView>> {
    paths.map_values(|p: SelectionPath| p@)
}

/// `prefix` is a leading part of `path` (or all of it).
pub open spec fn spec_is_prefix(prefix: Seq<SegmentView>, path: Seq<SegmentView>) -> bool {
    prefix.len() <= path.len() && path.take(prefix.len() as int) == prefix
}

/// A path is selected when no included list is given or an included path
/// lies on it or below it, and no excluded path lies on it.
pub open spec fn spec_selected(
    included: Seq<Seq<SegmentView>>,
    exclude: Seq<Seq<SegmentView>>,
    path: Seq<SegmentView>,
) -> bool {
    &&& (included.len() == 0 || exists|i: int|
        0 <= i < included.len() && (spec_is_prefix(#[trigger] included[i], path) || spec_is_prefix(
            path,
            included[i],
        )))
    &&& !exists|i: int| 0 <= i < exclude.len() && spec_is_prefix(#[trigger] exclude[i], path)
}

/// Whether two selection steps are the same.
pub fn same_segment(left: &SelectionSegment, right: &SelectionSegment) -> (r: bool)
    ensures
        r == (left@ == right@),
{
    match (left, right) {
        (SelectionSegment::Field(a), SelectionSegment::Field(b)) => str_equal(a.as_str(), b.as_str()),
        (SelectionSegment::Index(a), SelectionSegment::Index(b)) => *a == *b,
        _ => false,
    }
}

/// Whether `prefix` is a leading part of `path`.
pub fn is_prefix(prefix: &[SelectionSegment], path: &[SelectionSegment]) -> (r: bool)
    ensures
        r == spec_is_prefix(steps_of(prefix@), steps_of(path@)),
{
    if prefix.len() > path.len() {
        return false;
    }
    let mut k: usize = 0;
    while k < prefix.len()
        invariant
            k <= prefix@.len() <= path@.len(),
            forall|j: int| 0 <= j < k ==> (#[trigger] prefix@[j])@ == path@[j]@,
        decreases prefix@.len() - k,
    {
        if !same_segment(&prefix[k], &path[k]) {
            assert(steps_of(path@).take(prefix@.len() as int)[k as int] != steps_of(prefix@)[k as int]);
            return false;
        }
        k = k + 1;
    }
    assert(steps_of(path@).take(prefix@.len() as int) =~= steps_of(prefix@));
    true
}

/// Whether any of `paths` relates to `path` as the included rule asks.
fn any_included(paths: &Vec<SelectionPath>, path: &[SelectionSegment]) -> (r: bool)
    ensures
        r == exists|i: int|
            0 <= i < paths@.len() && (spec_is_prefix(#[trigger] paths_of(paths@)[i], steps_of(path@))
                || spec_is_prefix(steps_of(path@), paths_of(paths@)[i])),
{
    let mut k: usize = 0;
    while k < paths.len()
        invariant
            k <= paths@.len(),
            forall|j: int|
                0 <= j < k ==> !(spec_is_prefix(#[trigger] paths_of(paths@)[j], steps_of(path@)) || spec_is_prefix(
                    steps_of(path@),
                    paths_of(paths@)[j],
                )),
        decreases paths@.len() - k,
    {
        let segments = paths[k].segments();
        if is_prefix(segments, path) || is_prefix(path, segments) {
            assert(paths_of(paths@)[k as int] == paths@[k as int]@);
            return true;
        }
        assert(paths_of(paths@)[k as int] == paths@[k as int]@);
        k = k + 1;
    }
    false
}

/// Whether any of `paths` lies on `path`.
fn any_excluding(paths: &Vec<SelectionPath>, path: &[SelectionSegment]) -> (r: bool)
    ensures
        r == exists|i: int| 0 <= i < paths@.len() && spec_is_prefix(#[trigger] paths_of(paths@)[i], steps_of(path@)),
{
    let mut k: usize = 0;
    while k < paths.len()
        invariant
            k <= paths@.len(),
            forall|j: int| 0 <= j < k ==> !spec_is_prefix(#[trigger] paths_of(paths@)[j], steps_of(path@)),
        decreases paths@.len() - k,
    {
        if is_prefix(paths[k].segments(), path) {
            assert(paths_of(paths@)[k as int] == paths@[k as int]@);
            return true;
        }
        assert(paths_of(paths@)[k as int] == paths@[k as int]@);
        k = k + 1;
    }
    false
}

/// Whether the value at `path` is serialized under the options' included and
/// exclude lists.
pub fn selected(options: &SerializationOptions, path: &[SelectionSegment]) -> (r: bool)
    ensures
        r == spec_selected(paths_of(options.included@), paths_of(options.exclude@), steps_of(path@)),
{
    let included = options.included.len() == 0 || any_included(&options.included, path);
    included && !any_excluding(&options.exclude, path)
}

// ---------------------------------------------------------------------------
// Laws of selection
// ---------------------------------------------------------------------------

proof fn lemma_prefixes_of_one_path(a: Seq<SegmentView>, b: Seq<SegmentView>, path: Seq<SegmentView>)
    requires
        spec_is_prefix(a, path),
        spec_is_prefix(b, path),
    ensures
        spec_is_prefix(a, b) || spec_is_prefix(b, a),
{
    if a.len() <= b.len() {
        assert(b.take(a.len() as int) =~= path.take(a.len() as int));
    } else {
        assert(a.take(b.len() as int) =~= path.take(b.len() as int));
    }
}

proof fn lemma_prefix_extends(a: Seq<SegmentView>, path: Seq<SegmentView>, more: Seq<SegmentView>)
    requires
        spec_is_prefix(a, path),
    ensures
        spec_is_prefix(a, path + more),
        spec_is_prefix(path, path + more),
{
    assert((path + more).take(a.len() as int) =~= path.take(a.len() as int));
    assert((path + more).take(path.len() as int) =~= path);
}

/// A path that is not selected hides everything below it: no extension of
/// it is selected either, so the serializer may skip the whole subtree.
pub proof fn law_unselected_path_hides_extensions(
    included: Seq<Seq<SegmentView>>,
    exclude: Seq<Seq<SegmentView>>,
    path: Seq<SegmentView>,
    more: Seq<SegmentView>,
)
    requires
        !spec_selected(included, exclude, path),
    ensures
        !spec_selected(included, exclude, path + more),
{
    let longer = path + more;
    assert(spec_is_prefix(path, longer)) by {
        assert(longer.take(path.len() as int) =~= path);
    }
    if exists|i: int| 0 <= i < exclude.len() && spec_is_prefix(#[trigger] exclude[i], path) {
        let i = choose|i: int| 0 <= i < exclude.len() && spec_is_prefix(#[trigger] exclude[i], path);
        lemma_prefix_extends(exclude[i], path, more);
    } else {
        assert forall|i: int| 0 <= i < included.len() implies !(spec_is_prefix(#[trigger] included[i], longer)
            || spec_is_prefix(longer, included[i])) by {
            if spec_is_prefix(included[i], longer) {
                lemma_prefixes_of_one_path(included[i], path, longer);
            }
            if spec_is_prefix(longer, included[i]) {
                assert(included[i].take(path.len() as int) =~= longer.take(path.len() as int));
            }
        }
    }
}

/// With no included and no exclude list every path is selected.
pub proof fn law_no_lists_select_everything(path: Seq<SegmentView>)
    ensures
        spec_selected(Seq::empty(), Seq::empty(), path),
{
}

/// An excluded path is never selected, whatever is included.
pub proof fn law_exclusion_wins(
    included: Seq<Seq<SegmentView>>,
    exclude: Seq<Seq<SegmentView>>,
    path: Seq<SegmentView>,
    i: int,
)
    requires
        0 <= i < exclude.len(),
        spec_is_prefix(exclude[i], path),
    ensures
        !spec_selected(included, exclude, path),
{
}

/// An included path selects the way to it and everything below it, unless
/// an excluded path lies on the way.
pub proof fn law_inclusion_selects_ancestors_and_descendants(
    included: Seq<Seq<SegmentView>>,
    exclude: Seq<Seq<SegmentView>>,
    path: Seq<SegmentView>,
    i: int,
)
    requires
        0 <= i < included.len(),
        spec_is_prefix(included[i], path) || spec_is_prefix(path, included[i]),
        forall|j: int| 0 <= j < exclude.len() ==> !spec_is_prefix(#[trigger] exclude[j], path),
    ensures
        spec_selected(included, exclude, path),
{
}

} // verus!
