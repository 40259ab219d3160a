//! Small types that the streams and the searches share.
use crate::text::same_text;
use vstd::prelude::*;

verus! {

/// What a stream of posts is sorted by.
#[derive(Debug, Clone, Copy, PartialEq, Eq, Structural)]
pub enum StreamSorting {
    Timeline,
    TotalEngagement,
}

impl StreamSorting {
    /// How a sorting is spelled in a request.
    pub open spec fn spelled(self) -> Seq<char> {
        match self {
            StreamSorting::Timeline => "timeline"@,
            StreamSorting::TotalEngagement => "total_engagement"@,
        }
    }

    /// The sorting that a request names.
    pub fn parse(name: &str) -> (sorting: Option<StreamSorting>)
        ensures
            match sorting {
                Some(found) => name@ == found.spelled(),
                None => forall|other: StreamSorting| name@ != #[trigger] other.spelled(),
            },
    {
        if same_text(name, "timeline") {
            Some(StreamSorting::Timeline)
        } else if same_text(name, "total_engagement") {
            Some(StreamSorting::TotalEngagement)
        } else {
            assert forall|other: StreamSorting| name@ != #[trigger] other.spelled() by {
                match other {
                    StreamSorting::Timeline => {},
                    StreamSorting::TotalEngagement => {},
                }
            }
            None
        }
    }
}

/// How many follows away a Web of Trust reaches: one to three.
#[derive(Debug, Clone, Copy, PartialEq, Eq, Structural)]
pub enum WotDepth {
    One,
    Two,
    Three,
}

impl WotDepth {
    pub open spec fn value(self) -> u8 {
        match self {
            WotDepth::One => 1,
            WotDepth::Two => 2,
            WotDepth::Three => 3,
        }
    }

    /// The depth of that many follows, if it is one to three.
    pub fn new(depth: u8) -> (found: Option<WotDepth>)
        ensures
            match found {
                Some(wot) => wot.value() == depth,
                None => !(1 <= depth <= 3),
            },
    {
        if depth == 1 {
            Some(WotDepth::One)
        } else if depth == 2 {
            Some(WotDepth::Two)
        } else if depth == 3 {
            Some(WotDepth::Three)
        } else {
            None
        }
    }

    pub fn get(&self) -> (depth: u8)
        ensures
            depth == self.value(),
    {
        match self {
            WotDepth::One => 1,
            WotDepth::Two => 2,
            WotDepth::Three => 3,
        }
    }
}

/// Whose tags count in a domain-trust stream.
#[derive(Debug, Clone, Copy, PartialEq, Eq, Structural)]
pub enum DomainTrust {
    /// The observer's own.
    Me,
    /// Those of the observer's Web of Trust.
    Network(WotDepth),
}

impl DomainTrust {
    pub open spec fn value(self) -> u8 {
        match self {
            DomainTrust::Me => 0,
            DomainTrust::Network(depth) => depth.value(),
        }
    }

    /// How many follows away the taggers may be; the observer alone is zero away.
    pub fn depth(&self) -> (depth: u8)
        ensures
            depth == self.value(),
    {
        match self {
            DomainTrust::Me => 0,
            DomainTrust::Network(depth) => depth.get(),
        }
    }
}

/// Which users around an observer a search is scoped to.
#[derive(Debug, Clone, Copy, PartialEq, Eq, Structural)]
pub enum StreamReach {
    Followers,
    Following,
    Friends,
    Wot(WotDepth),
}

/// The reach that a request names; a Web of Trust without a depth is two follows deep.
pub open spec fn reach_named(name: Seq<char>) -> Option<StreamReach> {
    if name == "followers"@ {
        Some(StreamReach::Followers)
    } else if name == "following"@ {
        Some(StreamReach::Following)
    } else if name == "friends"@ {
        Some(StreamReach::Friends)
    } else if name == "wot_1"@ {
        Some(StreamReach::Wot(WotDepth::One))
    } else if name == "wot"@ || name == "wot_2"@ {
        Some(StreamReach::Wot(WotDepth::Two))
    } else if name == "wot_3"@ {
        Some(StreamReach::Wot(WotDepth::Three))
    } else {
        None
    }
}

impl StreamReach {
    /// The reach that a request names.
    pub fn parse(name: &str) -> (reach: Option<StreamReach>)
        ensures
            reach == reach_named(name@),
    {
        if same_text(name, "followers") {
            Some(StreamReach::Followers)
        } else if same_text(name, "following") {
            Some(StreamReach::Following)
        } else if same_text(name, "friends") {
            Some(StreamReach::Friends)
        } else if same_text(name, "wot_1") {
            Some(StreamReach::Wot(WotDepth::One))
        } else if same_text(name, "wot") || same_text(name, "wot_2") {
            Some(StreamReach::Wot(WotDepth::Two))
        } else if same_text(name, "wot_3") {
            Some(StreamReach::Wot(WotDepth::Three))
        } else {
            None
        }
    }

    /// Name and depth of a reach in telemetry.
    pub open spec fn dimensions(self) -> (Seq<char>, Option<u8>) {
        match self {
            StreamReach::Followers => ("followers"@, None),
            StreamReach::Following => ("following"@, None),
            StreamReach::Friends => ("friends"@, None),
            StreamReach::Wot(depth) => ("wot"@, Some(depth.value())),
        }
    }

    /// Low-cardinality name of the reach, and the depth for a Web of Trust.
    pub fn telemetry_dimensions(&self) -> (dimensions: (&'static str, Option<u8>))
        ensures
            (dimensions.0@, dimensions.1) == self.dimensions(),
    {
        match self {
            StreamReach::Followers => ("followers", None),
            StreamReach::Following => ("following", None),
            StreamReach::Friends => ("friends", None),
            StreamReach::Wot(depth) => ("wot", Some(depth.get())),
        }
    }
}

/// The kind of a post.
#[derive(Debug, Clone, Copy, PartialEq, Eq, Structural)]
pub enum PostKind {
    Short,
    Long,
    Image,
    Video,
    Link,
    File,
    Collection,
    Unknown,
}

impl PostKind {
    /// How a kind is spelled.
    pub open spec fn spelled(self) -> Seq<char> {
        match self {
            PostKind::Short => "short"@,
            PostKind::Long => "long"@,
            PostKind::Image => "image"@,
            PostKind::Video => "video"@,
            PostKind::Link => "link"@,
            PostKind::File => "file"@,
            PostKind::Collection => "collection"@,
            PostKind::Unknown => "unknown"@,
        }
    }

    /// The kind that a request names; a name that no kind has stands for an
    /// unknown kind.
    pub fn parse(name: &str) -> (kind: PostKind)
        ensures
            kind == kind_named(name@),
    {
        if same_text(name, "short") {
            PostKind::Short
        } else if same_text(name, "long") {
            PostKind::Long
        } else if same_text(name, "image") {
            PostKind::Image
        } else if same_text(name, "video") {
            PostKind::Video
        } else if same_text(name, "link") {
            PostKind::Link
        } else if same_text(name, "file") {
            PostKind::File
        } else if same_text(name, "collection") {
            PostKind::Collection
        } else {
            PostKind::Unknown
        }
    }

    /// The kind's name, as it is stored and searched.
    pub fn name(&self) -> (name: &'static str)
        ensures
            name@ == self.spelled(),
    {
        match self {
            PostKind::Short => "short",
            PostKind::Long => "long",
            PostKind::Image => "image",
            PostKind::Video => "video",
            PostKind::Link => "link",
            PostKind::File => "file",
            PostKind::Collection => "collection",
            PostKind::Unknown => "unknown",
        }
    }
}

/// The kind that a name stands for.
pub open spec fn kind_named(name: Seq<char>) -> PostKind {
    if name == "short"@ {
        PostKind::Short
    } else if name == "long"@ {
        PostKind::Long
    } else if name == "image"@ {
        PostKind::Image
    } else if name == "video"@ {
        PostKind::Video
    } else if name == "link"@ {
        PostKind::Link
    } else if name == "file"@ {
        PostKind::File
    } else if name == "collection"@ {
        PostKind::Collection
    } else {
        PostKind::Unknown
    }
}

/// A kind's name gives the kind back.
pub proof fn law_a_kind_is_told_by_its_name(kind: PostKind)
    ensures
        kind_named(kind.spelled()) == kind,
{
    reveal_strlit("short");
    reveal_strlit("long");
    reveal_strlit("image");
    reveal_strlit("video");
    reveal_strlit("link");
    reveal_strlit("file");
    reveal_strlit("collection");
    reveal_strlit("unknown");
    let spelled = kind.spelled();
    assert(spelled.len() > 3);
    match kind {
        PostKind::Short => {
            assert(spelled[0] == 's');
        },
        PostKind::Long => {
            assert(spelled[0] == 'l' && spelled[1] == 'o');
        },
        PostKind::Image => {
            assert(spelled[0] == 'i');
        },
        PostKind::Video => {
            assert(spelled[0] == 'v');
        },
        PostKind::Link => {
            assert(spelled[0] == 'l' && spelled[1] == 'i');
        },
        PostKind::File => {
            assert(spelled[0] == 'f');
        },
        PostKind::Collection => {
            assert(spelled[0] == 'c');
        },
        PostKind::Unknown => {
            assert(spelled[0] == 'u');
        },
    }
    assert("short"@[0] == 's' && "image"@[0] == 'i' && "video"@[0] == 'v' && "file"@[0] == 'f'
        && "collection"@[0] == 'c' && "long"@[0] == 'l' && "long"@[1] == 'o' && "link"@[0] == 'l'
        && "link"@[1] == 'i');
}

/// A page of a stream: how many entries to skip and to return, and the highest
/// (`start`) and lowest (`end`) score to return.
#[derive(Debug, Clone, Copy, PartialEq, Eq, Structural)]
pub struct Pagination {
    pub skip: Option<usize>,
    pub limit: Option<usize>,
    pub start: Option<i64>,
    pub end: Option<i64>,
}

/// A reach is named by its own name in requests as in telemetry, and by no other
/// reach's; a Web of Trust is named with its depth, or without one for two.
pub proof fn law_a_reach_is_told_by_its_name(reach: StreamReach, name: Seq<char>)
    ensures
        reach_named(name) == Some(reach) ==> match reach {
            StreamReach::Wot(depth) => {
                ||| name == "wot"@ && depth.value() == 2
                ||| name.len() == 5 && name.take(4) == "wot_"@ && name[4] as int == '0' as int
                    + depth.value()
            },
            _ => name == reach.dimensions().0,
        },
        match reach {
            StreamReach::Wot(_) => true,
            _ => reach_named(reach.dimensions().0) == Some(reach),
        },
        reach matches StreamReach::Wot(depth) ==> reach.dimensions().1 == Some(depth.value()),
        !(reach is Wot) ==> reach.dimensions().1 is None,
{
    reveal_strlit("followers");
    reveal_strlit("following");
    reveal_strlit("friends");
    reveal_strlit("wot");
    reveal_strlit("wot_");
    reveal_strlit("wot_1");
    reveal_strlit("wot_2");
    reveal_strlit("wot_3");
    assert("followers"@.len() == 9 && "following"@.len() == 9 && "friends"@.len() == 7);
    assert("followers"@[6] == 'e' && "following"@[6] == 'i');
    assert("wot_1"@.take(4) =~= "wot_"@);
    assert("wot_2"@.take(4) =~= "wot_"@);
    assert("wot_3"@.take(4) =~= "wot_"@);
    assert("wot_1"@[4] == '1' && "wot_2"@[4] == '2' && "wot_3"@[4] == '3');
}

/// A sorting goes by its own name, and two of them never by one.
pub proof fn law_a_sorting_is_told_by_its_name(sorting: StreamSorting)
    ensures
        sorting.spelled() == "timeline"@ <==> sorting == StreamSorting::Timeline,
        sorting.spelled() == "total_engagement"@ <==> sorting == StreamSorting::TotalEngagement,
{
    reveal_strlit("timeline");
    reveal_strlit("total_engagement");
    assert("timeline"@.len() == 8 && "total_engagement"@.len() == 16);
}

/// A depth is as many follows as it says, the taggers of a domain trust are as
/// far away as its network reaches, and the observer's own tags are no follow away.
pub proof fn law_a_depth_counts_follows(depth: WotDepth)
    ensures
        1 <= depth.value() <= 3,
        depth.value() == 1 <==> depth == WotDepth::One,
        depth.value() == 2 <==> depth == WotDepth::Two,
        depth.value() == 3 <==> depth == WotDepth::Three,
        DomainTrust::Network(depth).value() == depth.value(),
        DomainTrust::Me.value() == 0,
{
}

/// A name that stands for a kind other than the unknown one is that kind's name:
/// no other name stands for it.
pub proof fn law_a_kind_goes_by_one_name(name: Seq<char>)
    ensures
        kind_named(name) == PostKind::Unknown || name == kind_named(name).spelled(),
{
}

} // verus!
