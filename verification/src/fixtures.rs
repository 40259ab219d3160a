//! Users, posts and ids to try the indexer with.
use crate::pubky_id;
use crate::text;
use pubky::Keypair;
use pubky_app_specs::{
    PubkyAppCollectionContent, PubkyAppPost, PubkyAppPostEmbed, PubkyAppPostKind, PubkyAppUser,
};
use std::str::FromStr;
use std::sync::Arc;
use vstd::prelude::*;

verus! {

/// A post as a homeserver holds it. Kinds are given by name.
#[derive(Debug)]
pub struct AppPost {
    pub content: String,
    pub kind: String,
    /// The post that this one replies to.
    pub parent: Option<String>,
    /// Kind and uri of the post that this one reposts.
    pub embed: Option<(String, String)>,
    pub attachments: Option<Vec<String>>,
    pub lock: Option<String>,
}

/// `AppPost`, over plain sequences.
pub struct AppPostModel {
    pub content: Seq<char>,
    pub kind: Seq<char>,
    pub parent: Option<Seq<char>>,
    pub embed: Option<(Seq<char>, Seq<char>)>,
    pub attachments: Option<Seq<Seq<char>>>,
    pub lock: Option<Seq<char>>,
}

impl View for AppPost {
    type V = AppPostModel;

    open spec fn view(&self) -> AppPostModel {
        AppPostModel {
            content: self.content@,
            kind: self.kind@,
            parent: self.parent.deep_view(),
            embed: self.embed.deep_view(),
            attachments: self.attachments.deep_view(),
            lock: self.lock.deep_view(),
        }
    }
}

/// A user's profile as a homeserver holds it.
#[derive(Debug)]
pub struct AppUser {
    pub name: String,
    pub bio: Option<String>,
    pub image: Option<String>,
    /// Title and url of each link.
    pub links: Option<Vec<(String, String)>>,
    pub status: Option<String>,
}

/// Whether `name` names a kind that posts can have.
pub open spec fn known_kind(name: Seq<char>) -> bool {
    ||| name == "short"@
    ||| name == "long"@
    ||| name == "image"@
    ||| name == "video"@
    ||| name == "link"@
    ||| name == "file"@
    ||| name == "collection"@
}

/// The canonical form of a uri: what `sanitize_url` inside `pubky_app_specs`
/// makes of it.
pub uninterp spec fn clean_uri(uri: Seq<char>) -> Seq<char>;

/// The canonical form of a uri that may be left out.
pub open spec fn clean_given(uri: Option<Seq<char>>) -> Option<Seq<char>> {
    match uri {
        Some(text) => Some(clean_uri(text)),
        None => None,
    }
}

/// A post of these parts and no attachments: the content is trimmed, and uris
/// are in their canonical form.
pub open spec fn post_of(
    content: Seq<char>,
    kind: Seq<char>,
    parent: Option<Seq<char>>,
    embed: Option<(Seq<char>, Seq<char>)>,
    lock: Option<Seq<char>>,
) -> AppPostModel {
    AppPostModel {
        content: text::trimmed(content),
        kind,
        parent: clean_given(parent),
        embed: match embed {
            Some(part) => Some((part.0, clean_uri(part.1))),
            None => None,
        },
        attachments: None,
        lock: clean_given(lock),
    }
}

/// Makes a post with `PubkyAppPost::new_with_lock` of `pubky_app_specs`, whose
/// kinds are read from their names with `PubkyAppPostKind::from_str`. It trims
/// the content and puts each uri in its canonical form, which is told by
/// `clean_uri` and depends on that uri alone. Kinds stay what they are, and what
/// was not given is not there.
#[verifier::external_body]
fn new_app_post(
    content: String,
    kind: &str,
    parent: Option<String>,
    embed: Option<(&str, String)>,
    lock: Option<String>,
) -> (post: AppPost)
    requires
        known_kind(kind@),
        embed matches Some(part) ==> known_kind(part.0@),
    ensures
        post.content@ == text::trimmed(content@),
        post.kind@ == kind@,
        post.parent.deep_view() == (match parent {
            Some(uri) => Some(clean_uri(uri@)),
            None => None,
        }),
        post.embed.deep_view() == (match embed {
            Some(part) => Some((part.0@, clean_uri(part.1@))),
            None => None,
        }),
        post.attachments is None,
        post.lock.deep_view() == (match lock {
            Some(uri) => Some(clean_uri(uri@)),
            None => None,
        }),
{
    let kind = PubkyAppPostKind::from_str(kind).unwrap_or_default();
    let embed = embed.map(|(kind, uri)| PubkyAppPostEmbed {
        kind: PubkyAppPostKind::from_str(kind).unwrap_or_default(),
        uri,
    });
    let post = PubkyAppPost::new_with_lock(content, kind, parent, embed, None, lock);
    AppPost {
        content: post.content,
        kind: post.kind.to_string(),
        parent: post.parent,
        embed: post.embed.map(|embed| (embed.kind.to_string(), embed.uri)),
        attachments: post.attachments,
        lock: post.lock,
    }
}

/// The name that a profile gets: trimmed, and the reserved name of a deleted
/// user replaced.
pub open spec fn profile_name(name: Seq<char>) -> Seq<char> {
    if text::trimmed(name) == "[DELETED]"@ {
        "anonymous"@
    } else {
        text::trimmed(name)
    }
}

/// Makes a profile with `PubkyAppUser::new` of `pubky_app_specs`. It trims both
/// texts and replaces the reserved name. What was not given is not there.
#[verifier::external_body]
fn new_app_user(name: String, bio: String) -> (user: AppUser)
    ensures
        user.name@ == profile_name(name@),
        user.bio.deep_view() == Some(text::trimmed(bio@)),
        user.image is None,
        user.links is None,
        user.status is None,
{
    let user = PubkyAppUser::new(name, Some(bio), None, None, None);
    AppUser {
        name: user.name,
        bio: user.bio,
        image: user.image,
        links: user.links.map(|links| links.into_iter().map(|l| (l.title, l.url)).collect()),
        status: user.status,
    }
}

/// The content of a collection without items: what `serde_json::to_string` makes
/// of a `PubkyAppCollectionContent` of `pubky_app_specs` with this name.
pub uninterp spec fn collection_envelope(name: Seq<char>) -> Seq<char>;

/// Writes the content of a collection without items with `serde_json::to_string`.
/// How a name is escaped is told by `collection_envelope`, which depends on the
/// name alone. Nothing in such a content can fail to be written.
#[verifier::external_body]
fn to_collection_envelope(name: String) -> (content: String)
    ensures
        content@ == collection_envelope(name@),
{
    let envelope = PubkyAppCollectionContent { name, ..Default::default() };
    serde_json::to_string(&envelope).unwrap_or_default()
}

/// Makes up a key pair with `Keypair::random` of `pubky`, and gives the text of
/// its public key. Which key it is, is left to chance; its text is the id of
/// that key, spelled canonically.
#[verifier::external_body]
fn random_key_text() -> (key: String)
    ensures
        pubky_id::pubky_id(key@) == Some(key@),
{
    Keypair::random().public_key().to_z32()
}

/// Takes users in, except from blacklisted homeservers.
#[derive(Debug)]
pub struct UserIngestor {
    pub hs_blacklist: Vec<String>,
}

impl Default for UserIngestor {
    fn default() -> (ingestor: UserIngestor)
        ensures
            ingestor.hs_blacklist@ == Seq::<String>::empty(),
    {
        UserIngestor { hs_blacklist: Vec::new() }
    }
}

/// Text of a random public key.
pub fn random_pk() -> (key: String)
    ensures
        pubky_id::pubky_id(key@) == Some(key@),
{
    random_key_text()
}

/// A random id, usable for a user or a homeserver.
pub fn random_pubky_id() -> (id: String)
    ensures
        pubky_id::pubky_id(id@) == Some(id@),
{
    random_pk()
}

/// A user ingestor with an empty blacklist, which takes everyone in.
pub fn default_ingestor_tests() -> (ingestor: Arc<UserIngestor>)
    ensures
        ingestor.hs_blacklist@ == Seq::<String>::empty(),
{
    Arc::new(UserIngestor::default())
}

/// A profile with a name and a bio.
pub fn test_user(name: String, bio: String) -> (user: AppUser)
    ensures
        user.name@ == profile_name(name@),
        user.bio.deep_view() == Some(text::trimmed(bio@)),
        user.image is None,
        user.links is None,
        user.status is None,
{
    new_app_user(name, bio)
}

/// A short root post.
pub fn short_post(content: String) -> (post: AppPost)
    ensures
        post@ == post_of(content@, "short"@, None, None, None),
{
    new_app_post(content, "short", None, None, None)
}

/// A long root post.
pub fn long_post(content: String) -> (post: AppPost)
    ensures
        post@ == post_of(content@, "long"@, None, None, None),
{
    new_app_post(content, "long", None, None, None)
}

/// A short reply to `parent_uri`.
pub fn short_reply(content: String, parent_uri: String) -> (post: AppPost)
    ensures
        post@ == post_of(content@, "short"@, Some(parent_uri@), None, None),
{
    new_app_post(content, "short", Some(parent_uri), None, None)
}

/// A short repost: a post whose embed points at `parent_uri`.
pub fn short_repost(content: String, parent_uri: String) -> (post: AppPost)
    ensures
        post@ == post_of(content@, "short"@, None, Some(("short"@, parent_uri@)), None),
{
    new_app_post(content, "short", None, Some(("short", parent_uri)), None)
}

/// A short post locked behind `lock_uri`, which must be a valid `pubky://` url.
pub fn locked_post(content: String, lock_uri: String) -> (post: AppPost)
    ensures
        post@ == post_of(content@, "short"@, None, None, Some(lock_uri@)),
{
    new_app_post(content, "short", None, None, Some(lock_uri))
}

/// A collection with the given name and no items.
pub fn collection_post(name: String) -> (post: AppPost)
    ensures
        post@ == post_of(collection_envelope(name@), "collection"@, None, None, None),
{
    new_app_post(to_collection_envelope(name), "collection", None, None, None)
}

} // verus!
