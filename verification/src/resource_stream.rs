//! Streams of tagged resources, read from the graph.
use crate::order;
use crate::post_stream;
use crate::sorted_set::SortOrder;
use crate::text::copy_texts;
use crate::types::Pagination;
use vstd::prelude::*;

verus! {

/// How many tags of a resource are loaded with it.
pub const RESOURCE_TAGS_LIMIT: usize = 5;

/// How many taggers of each of those tags are loaded.
pub const RESOURCE_TAGGERS_LIMIT: usize = 3;

/// What a stream of resources is drawn from.
#[derive(Debug, PartialEq)]
pub enum ResourceStreamSource {
    All,
    App { app: String },
}

impl Default for ResourceStreamSource {
    fn default() -> (source: ResourceStreamSource)
        ensures
            source == ResourceStreamSource::All,
    {
        ResourceStreamSource::All
    }
}

impl ResourceStreamSource {
    /// The app that the stream is scoped to.
    pub open spec fn scope(self) -> Option<Seq<char>> {
        match self {
            ResourceStreamSource::All => None,
            ResourceStreamSource::App { app } => Some(app@),
        }
    }
}

/// What a stream of resources is sorted by.
#[derive(Debug, Clone, Copy, PartialEq, Eq, Structural)]
pub enum ResourceSorting {
    Timeline,
    TaggersCount,
}

impl Default for ResourceSorting {
    fn default() -> (sorting: ResourceSorting)
        ensures
            sorting == ResourceSorting::Timeline,
    {
        ResourceSorting::Timeline
    }
}

/// A page of resource ids.
#[derive(Debug, PartialEq)]
pub struct ResourceKeyStream {
    pub resource_ids: Vec<String>,
    /// Score of the last entry, usable as the `start` cursor for the next page:
    /// the latest tag timestamp for `timeline`, the taggers count for
    /// `taggers_count`. `None` when the page is empty.
    pub last_score: Option<u64>,
}

impl Default for ResourceKeyStream {
    fn default() -> (stream: ResourceKeyStream)
        ensures
            stream.resource_ids.deep_view() == Seq::<Seq<char>>::empty(),
            stream.last_score is None,
    {
        let resource_ids: Vec<String> = Vec::new();
        assert(resource_ids.deep_view() =~= Seq::empty());
        ResourceKeyStream { resource_ids, last_score: None }
    }
}

/// The ids of scored entries.
pub open spec fn ids_of(entries: Seq<(Seq<char>, i64)>) -> Seq<Seq<char>> {
    entries.map_values(|entry: (Seq<char>, i64)| entry.0)
}

impl ResourceKeyStream {
    pub fn new(resource_ids: Vec<String>, last_score: Option<u64>) -> (stream: ResourceKeyStream)
        ensures
            stream.resource_ids == resource_ids,
            stream.last_score == last_score,
    {
        ResourceKeyStream { resource_ids, last_score }
    }

    /// The ids of scored entries, with the score of the last one as the cursor;
    /// a score below zero counts as zero.
    pub fn from_scored_entries(entries: Vec<(String, i64)>) -> (stream: ResourceKeyStream)
        ensures
            stream.resource_ids.deep_view() == ids_of(entries.deep_view()),
            stream.last_score == (if entries@.len() == 0 {
                None
            } else {
                Some(post_stream::cursor_of(entries@.last().1))
            }),
    {
        let ghost all = ids_of(entries.deep_view());
        let mut resource_ids: Vec<String> = Vec::new();
        let mut last_score: Option<u64> = None;
        for entry in it: entries
            invariant
                it.seq() == entries@,
                all == ids_of(entries.deep_view()),
                resource_ids.deep_view() == all.take(it.index() as int),
                last_score == (if it.index() == 0 {
                    None
                } else {
                    Some(post_stream::cursor_of(entries@[it.index() - 1].1))
                }),
        {
            let ghost before = resource_ids.deep_view();
            let ghost i = it.index() as int;
            let score: i64 = entry.1;
            resource_ids.push(entry.0);
            last_score = Some(
                if score < 0 {
                    0
                } else {
                    score as u64
                },
            );
            proof {
                assert(resource_ids.deep_view() =~= before.push(all[i]));
                assert(all.take(i + 1) =~= before.push(all[i]));
            }
        }
        assert(all.take(entries@.len() as int) =~= all);
        ResourceKeyStream::new(resource_ids, last_score)
    }

    pub fn is_empty(&self) -> (empty: bool)
        ensures
            empty == (self.resource_ids@.len() == 0),
    {
        self.resource_ids.len() == 0
    }
}

/// What is kept of a resource.
#[derive(Debug)]
pub struct ResourceDetails {
    pub id: String,
    pub uri: String,
}

/// A tag on a resource, with some of its taggers.
#[derive(Debug)]
pub struct TagDetails {
    pub label: String,
    pub taggers: Vec<String>,
    pub taggers_count: usize,
    pub relationship: bool,
}

/// A resource as a viewer sees it.
#[derive(Debug)]
pub struct ResourceView {
    pub details: ResourceDetails,
    pub tags: Vec<TagDetails>,
    /// The taggers of all loaded tags together.
    pub taggers_count: usize,
}

/// A page of resources.
#[derive(Debug)]
pub struct ResourceStream(pub Vec<ResourceView>);

impl Default for ResourceStream {
    fn default() -> (stream: ResourceStream)
        ensures
            stream.0@ == Seq::<ResourceView>::empty(),
    {
        ResourceStream(Vec::new())
    }
}

/// A page of resource ids, asked of the graph.
#[derive(Debug)]
pub struct ResourceQuery {
    pub app: Option<String>,
    pub tags: Option<Vec<String>>,
    pub sorting: ResourceSorting,
    pub order: SortOrder,
    pub pagination: Pagination,
}

/// `ResourceQuery`, over plain sequences.
pub struct ResourceQueryModel {
    pub app: Option<Seq<char>>,
    pub tags: Option<Seq<Seq<char>>>,
    pub sorting: ResourceSorting,
    pub order: SortOrder,
    pub pagination: Pagination,
}

impl View for ResourceQuery {
    type V = ResourceQueryModel;

    open spec fn view(&self) -> ResourceQueryModel {
        ResourceQueryModel {
            app: self.app.deep_view(),
            tags: self.tags.deep_view(),
            sorting: self.sorting,
            order: self.order,
            pagination: self.pagination,
        }
    }
}

/// The query for a page of resource ids.
pub open spec fn resource_query(
    scope: Option<Seq<char>>,
    pagination: Pagination,
    order: SortOrder,
    sorting: ResourceSorting,
    tags: Option<Seq<Seq<char>>>,
) -> ResourceQueryModel {
    ResourceQueryModel { app: scope, tags, sorting, order, pagination }
}

/// Resources are asked for as they were wanted: of the app that the source names
/// or of all, with the tags, the sort, the order and the page that were given.
pub proof fn law_resources_are_asked_for_as_they_were_wanted(
    source: ResourceStreamSource,
    pagination: Pagination,
    order: SortOrder,
    sorting: ResourceSorting,
    tags: Option<Seq<Seq<char>>>,
)
    ensures
        ({
            let query = resource_query(source.scope(), pagination, order, sorting, tags);
            &&& match source {
                ResourceStreamSource::All => query.app is None,
                ResourceStreamSource::App { app } => query.app == Some(app@),
            }
            &&& query.tags == tags
            &&& query.sorting == sorting
            &&& query.order == order
            &&& query.pagination == pagination
        }),
{
}

/// What loading one resource waits for.
#[derive(Debug)]
pub enum LoadStage {
    /// The resource's details.
    Details,
    /// The resource's tags, once its details are known.
    Tags(ResourceDetails),
    /// Nothing: this is the resource; `None` for one that is gone.
    Done(Option<ResourceView>),
    /// Nothing: it was told something that it had not asked for.
    Stuck,
}

/// What loading one resource asks.
#[derive(Debug)]
pub enum LoadAction {
    Details { resource_id: String },
    Tags {
        resource_id: String,
        tags_limit: usize,
        taggers_limit: usize,
        viewer_id: Option<String>,
    },
}

/// What loading one resource is told.
#[derive(Debug)]
pub enum LoadEvent {
    Details(Option<ResourceDetails>),
    Tags(Option<Vec<TagDetails>>),
}

/// The load of one resource, for a viewer.
#[derive(Debug)]
pub struct ResourceLoad {
    pub resource_id: String,
    pub viewer_id: Option<String>,
    pub stage: LoadStage,
}

/// The taggers of the first `n` tags together.
pub open spec fn taggers_in(tags: Seq<TagDetails>, n: nat) -> nat
    decreases n,
{
    if n == 0 {
        0
    } else {
        taggers_in(tags, (n - 1) as nat) + tags[n - 1].taggers_count as nat
    }
}

/// The taggers of fewer tags are no more.
proof fn lemma_taggers_in(tags: Seq<TagDetails>, n: nat, m: nat)
    requires
        n <= m,
    ensures
        taggers_in(tags, n) <= taggers_in(tags, m),
    decreases m,
{
    if n < m {
        lemma_taggers_in(tags, n, (m - 1) as nat);
    }
}

/// The tags that were told; a resource without any has an empty list.
pub open spec fn tags_told(tags: Option<Vec<TagDetails>>) -> Seq<TagDetails> {
    match tags {
        Some(list) => list@,
        None => Seq::empty(),
    }
}

/// `ResourceView`, over plain sequences.
pub struct ViewModel {
    pub details: ResourceDetails,
    pub tags: Seq<TagDetails>,
    pub taggers_count: nat,
}

/// `LoadStage`, over plain sequences.
pub enum LoadModel {
    Details,
    Tags(ResourceDetails),
    Done(Option<ViewModel>),
    Stuck,
}

/// `LoadAction`, over plain sequences.
pub enum LoadAsk {
    Details { resource_id: Seq<char> },
    Tags {
        resource_id: Seq<char>,
        tags_limit: usize,
        taggers_limit: usize,
        viewer_id: Option<Seq<char>>,
    },
}

impl View for ResourceView {
    type V = ViewModel;

    open spec fn view(&self) -> ViewModel {
        ViewModel {
            details: self.details,
            tags: self.tags@,
            taggers_count: self.taggers_count as nat,
        }
    }
}

impl View for LoadStage {
    type V = LoadModel;

    open spec fn view(&self) -> LoadModel {
        match *self {
            LoadStage::Details => LoadModel::Details,
            LoadStage::Tags(details) => LoadModel::Tags(details),
            LoadStage::Done(found) => LoadModel::Done(
                match found {
                    Some(view) => Some(view@),
                    None => None,
                },
            ),
            LoadStage::Stuck => LoadModel::Stuck,
        }
    }
}

impl View for LoadAction {
    type V = LoadAsk;

    open spec fn view(&self) -> LoadAsk {
        match *self {
            LoadAction::Details { resource_id } => LoadAsk::Details { resource_id: resource_id@ },
            LoadAction::Tags { resource_id, tags_limit, taggers_limit, viewer_id } => LoadAsk::Tags {
                resource_id: resource_id@,
                tags_limit,
                taggers_limit,
                viewer_id: viewer_id.deep_view(),
            },
        }
    }
}

impl LoadModel {
    /// What is asked in this stage of the load of a resource, for a viewer.
    pub open spec fn action(self, resource: Seq<char>, viewer: Option<Seq<char>>) -> Option<
        LoadAsk,
    > {
        match self {
            LoadModel::Details => Some(LoadAsk::Details { resource_id: resource }),
            LoadModel::Tags(_) => Some(
                LoadAsk::Tags {
                    resource_id: resource,
                    tags_limit: RESOURCE_TAGS_LIMIT,
                    taggers_limit: RESOURCE_TAGGERS_LIMIT,
                    viewer_id: viewer,
                },
            ),
            _ => None,
        }
    }

    /// The stage that follows once `event` was told.
    pub open spec fn next(self, event: LoadEvent) -> LoadModel {
        match (self, event) {
            (LoadModel::Details, LoadEvent::Details(Some(details))) => LoadModel::Tags(details),
            (LoadModel::Details, LoadEvent::Details(None)) => LoadModel::Done(None),
            (LoadModel::Tags(details), LoadEvent::Tags(told)) => LoadModel::Done(
                Some(
                    ViewModel {
                        details,
                        tags: tags_told(told),
                        taggers_count: taggers_in(tags_told(told), tags_told(told).len()),
                    },
                ),
            ),
            _ => LoadModel::Stuck,
        }
    }
}

/// Loading a resource asks for the details and then for the tags of that very
/// resource, as that very viewer sees them. It comes to those details with those
/// tags, in the order they were told, and no others; a resource that is gone
/// comes to nothing, and one without tags to an empty list of them.
pub proof fn law_a_resource_is_loaded_with_its_own_details_and_tags(
    resource: Seq<char>,
    viewer: Option<Seq<char>>,
    details: ResourceDetails,
    told: Option<Vec<TagDetails>>,
)
    ensures
        ({
            let begun = LoadModel::Details;
            let found = begun.next(LoadEvent::Details(Some(details)));
            let end = found.next(LoadEvent::Tags(told));
            &&& begun.action(resource, viewer) == Some(LoadAsk::Details { resource_id: resource })
            &&& found.action(resource, viewer) matches Some(
                LoadAsk::Tags { resource_id, tags_limit, taggers_limit, viewer_id },
            )
            &&& resource_id == resource
            &&& viewer_id == viewer
            &&& tags_limit == 5
            &&& taggers_limit == 3
            &&& end matches LoadModel::Done(Some(view))
            &&& view.details == details
            &&& match told {
                Some(tags) => view.tags == tags@,
                None => view.tags.len() == 0 && view.taggers_count == 0,
            }
            &&& end.action(resource, viewer) is None
            &&& begun.next(LoadEvent::Details(None)) == LoadModel::Done(None)
        }),
{
}

impl ResourceLoad {
    /// What to find out next; nothing once the load is over.
    pub fn action(&self) -> (action: Option<LoadAction>)
        ensures
            match action {
                Some(asked) => self.stage@.action(
                    self.resource_id@,
                    self.viewer_id.deep_view(),
                ) == Some(asked@),
                None => self.stage@.action(
                    self.resource_id@,
                    self.viewer_id.deep_view(),
                ) is None,
            },
    {
        match &self.stage {
            LoadStage::Details => Some(
                LoadAction::Details { resource_id: self.resource_id.clone() },
            ),
            LoadStage::Tags(_) => Some(
                LoadAction::Tags {
                    resource_id: self.resource_id.clone(),
                    tags_limit: RESOURCE_TAGS_LIMIT,
                    taggers_limit: RESOURCE_TAGGERS_LIMIT,
                    viewer_id: match &self.viewer_id {
                        Some(id) => Some(id.clone()),
                        None => None,
                    },
                },
            ),
            _ => None,
        }
    }

    /// The load once it was told what it asked for. A resource that is found is
    /// shown with its tags and the number of their taggers together.
    pub fn step(self, event: LoadEvent) -> (next: ResourceLoad)
        requires
            event matches LoadEvent::Tags(tags) ==> taggers_in(
                tags_told(tags),
                tags_told(tags).len(),
            ) <= usize::MAX,
        ensures
            next.resource_id == self.resource_id,
            next.viewer_id == self.viewer_id,
            next.stage@ == self.stage@.next(event),
    {
        let stage = match (self.stage, event) {
            (LoadStage::Details, LoadEvent::Details(Some(details))) => LoadStage::Tags(details),
            (LoadStage::Details, LoadEvent::Details(None)) => LoadStage::Done(None),
            (LoadStage::Tags(details), LoadEvent::Tags(told)) => {
                let tags: Vec<TagDetails> = match told {
                    Some(list) => list,
                    None => Vec::new(),
                };
                let mut taggers_count: usize = 0;
                let mut i: usize = 0;
                while i < tags.len()
                    invariant
                        i <= tags@.len(),
                        taggers_count == taggers_in(tags@, i as nat),
                        taggers_in(tags@, tags@.len()) <= usize::MAX,
                    decreases tags@.len() - i,
                {
                    proof {
                        lemma_taggers_in(tags@, (i + 1) as nat, tags@.len());
                    }
                    taggers_count = taggers_count + tags[i].taggers_count;
                    i = i + 1;
                }
                LoadStage::Done(Some(ResourceView { details, tags, taggers_count }))
            },
            _ => LoadStage::Stuck,
        };
        ResourceLoad { resource_id: self.resource_id, viewer_id: self.viewer_id, stage }
    }
}

/// Of the first `n` loads, the resources that were found.
pub open spec fn resources_in(views: Seq<Option<ResourceView>>, n: nat) -> Seq<ResourceView>
    decreases n,
{
    if n == 0 {
        Seq::empty()
    } else {
        let before = resources_in(views, (n - 1) as nat);
        match views[n - 1] {
            Some(view) => before.push(view),
            None => before,
        }
    }
}

impl ResourceStream {
    /// The query for a page of resource ids of the given source, filters and sorting.
    pub fn get_resource_keys(
        source: &ResourceStreamSource,
        pagination: Pagination,
        order: SortOrder,
        sorting: &ResourceSorting,
        tags: Option<&Vec<String>>,
    ) -> (query: ResourceQuery)
        ensures
            query@ == resource_query(
                source.scope(),
                pagination,
                order,
                *sorting,
                match tags {
                    Some(labels) => Some(labels.deep_view()),
                    None => None,
                },
            ),
            query.app.deep_view() == source.scope(),
            query.sorting == *sorting,
            query.order == order,
            query.pagination == pagination,
    {
        ResourceQuery {
            app: match source {
                ResourceStreamSource::App { app } => Some(app.clone()),
                ResourceStreamSource::All => None,
            },
            tags: match tags {
                Some(labels) => Some(copy_texts(labels)),
                None => None,
            },
            sorting: *sorting,
            order,
            pagination,
        }
    }

    /// One load for each of the listed resources, in their order; none at all
    /// for an empty list.
    pub fn from_listed_resource_ids(viewer_id: Option<&str>, resource_ids: &Vec<String>) -> (loads:
        Option<Vec<ResourceLoad>>)
        ensures
            match loads {
                None => resource_ids@.len() == 0,
                Some(list) => {
                    &&& resource_ids@.len() > 0
                    &&& list@.len() == resource_ids@.len()
                    &&& forall|i: int|
                        0 <= i < list@.len() ==> {
                            &&& (#[trigger] list@[i]).stage is Details
                            &&& list@[i].resource_id@ == resource_ids@[i]@
                            &&& list@[i].viewer_id.deep_view() == (match viewer_id {
                                Some(id) => Some(id@),
                                None => None,
                            })
                        }
                },
            },
    {
        if resource_ids.len() == 0 {
            return None;
        }
        let mut loads: Vec<ResourceLoad> = Vec::new();
        let mut i: usize = 0;
        while i < resource_ids.len()
            invariant
                i <= resource_ids@.len(),
                loads@.len() == i,
                forall|j: int|
                    0 <= j < i ==> {
                        &&& (#[trigger] loads@[j]).stage is Details
                        &&& loads@[j].resource_id@ == resource_ids@[j]@
                        &&& loads@[j].viewer_id.deep_view() == (match viewer_id {
                            Some(id) => Some(id@),
                            None => None,
                        })
                    },
            decreases resource_ids@.len() - i,
        {
            loads.push(
                ResourceLoad {
                    resource_id: resource_ids[i].clone(),
                    viewer_id: match viewer_id {
                        Some(id) => Some(id.to_owned()),
                        None => None,
                    },
                    stage: LoadStage::Details,
                },
            );
            i = i + 1;
        }
        Some(loads)
    }

    /// The stream of the resources that were found, in the order they were
    /// listed; none where none was found.
    pub fn from_loaded(views: Vec<Option<ResourceView>>) -> (stream: Option<ResourceStream>)
        ensures
            match stream {
                Some(found) => {
                    &&& found.0@ == resources_in(views@, views@.len())
                    &&& found.0@.len() > 0
                    &&& order::keeps_order(views@, found.0@)
                },
                None => resources_in(views@, views@.len()).len() == 0,
            },
    {
        let mut found: Vec<ResourceView> = Vec::new();
        for answer in it: views
            invariant
                it.seq() == views@,
                found@ == resources_in(views@, it.index() as nat),
        {
            if let Some(view) = answer {
                found.push(view);
            }
        }
        proof {
            law_resources_stand_in_the_order_they_were_listed(views@);
        }
        if found.len() == 0 {
            None
        } else {
            Some(ResourceStream(found))
        }
    }
}

proof fn lemma_resources_in(views: Seq<Option<ResourceView>>, n: nat)
    requires
        n <= views.len(),
    ensures
        resources_in(views, n) == order::present(views.take(n as int)),
    decreases n,
{
    if n > 0 {
        lemma_resources_in(views, (n - 1) as nat);
        assert(views.take(n as int).drop_last() =~= views.take(n - 1));
    }
}

/// The resources of a page stand in the order in which they were listed: every
/// resource that was found is there, once, and nothing else. Of two that were
/// found, the one listed first stands first. Where all are found, each stands at
/// its own place.
pub proof fn law_resources_stand_in_the_order_they_were_listed(views: Seq<Option<ResourceView>>)
    ensures
        ({
            let found = resources_in(views, views.len());
            &&& order::keeps_order(views, found)
            &&& forall|i: int, j: int|
                #![trigger views[i], views[j]]
                0 <= i < j < views.len() && views[i] is Some && views[j] is Some ==> exists|
                    p: int,
                    q: int,
                |
                    0 <= p < q < found.len() && (#[trigger] found[p]) == views[i]->0
                        && (#[trigger] found[q]) == views[j]->0
            &&& (forall|i: int| 0 <= i < views.len() ==> (#[trigger] views[i]) is Some)
                ==> found.len() == views.len() && forall|k: int|
                0 <= k < found.len() ==> (#[trigger] found[k]) == views[k]->0
        }),
{
    let found = resources_in(views, views.len());
    lemma_resources_in(views, views.len());
    assert(views.take(views.len() as int) =~= views);
    order::lemma_present(views);
    assert forall|i: int, j: int|
        #![trigger views[i], views[j]]
        0 <= i < j < views.len() && views[i] is Some && views[j] is Some implies exists|
        p: int,
        q: int,
    |
        0 <= p < q < found.len() && (#[trigger] found[p]) == views[i]->0 && (
        #[trigger] found[q]) == views[j]->0 by {
        let (p, q) = order::lemma_pair_in_order(views, found, i, j);
        assert(found[p] == views[i]->0 && found[q] == views[j]->0);
    }
    if forall|i: int| 0 <= i < views.len() ==> (#[trigger] views[i]) is Some {
        order::lemma_all_present(views, found);
        assert forall|k: int| 0 <= k < found.len() implies (#[trigger] found[k]) == views[k]->0 by {
            assert(views[k] == Some(found[k]));
        }
    }
}

/// The ids of a page are those of its entries, each at its place.
pub proof fn law_ids_stand_where_their_entries_do(entries: Seq<(Seq<char>, i64)>)
    ensures
        ids_of(entries).len() == entries.len(),
        forall|k: int| 0 <= k < entries.len() ==> (#[trigger] ids_of(entries)[k]) == entries[k].0,
{
}

proof fn lemma_taggers_among(a: Seq<TagDetails>, b: Seq<TagDetails>, n: nat)
    requires
        n <= a.len(),
        n <= b.len(),
        forall|i: int| 0 <= i < n ==> (#[trigger] a[i]).taggers_count == b[i].taggers_count,
    ensures
        taggers_in(a, n) == taggers_in(b, n),
    decreases n,
{
    if n > 0 {
        lemma_taggers_among(a, b, (n - 1) as nat);
    }
}

/// Every tag counts with all of its taggers: one tag more raises the count by
/// that tag's taggers, wherever it stands, and without a tag there is none.
pub proof fn law_every_tag_counts_with_its_taggers(
    before: Seq<TagDetails>,
    tag: TagDetails,
    behind: Seq<TagDetails>,
)
    ensures
        taggers_in(before + seq![tag] + behind, (before + seq![tag] + behind).len())
            == taggers_in(before + behind, (before + behind).len()) + tag.taggers_count,
        taggers_in(Seq::<TagDetails>::empty(), 0) == 0,
    decreases behind.len(),
{
    let with = before + seq![tag] + behind;
    let without = before + behind;
    if behind.len() == 0 {
        assert(without =~= before);
        assert(with[before.len() as int] == tag);
        lemma_taggers_among(with, before, before.len());
    } else {
        let fewer = behind.drop_last();
        law_every_tag_counts_with_its_taggers(before, tag, fewer);
        lemma_taggers_among(
            with,
            before + seq![tag] + fewer,
            (before + seq![tag] + fewer).len(),
        );
        lemma_taggers_among(without, before + fewer, (before + fewer).len());
        assert(with.last() == behind.last() && without.last() == behind.last());
    }
}

} // verus!
