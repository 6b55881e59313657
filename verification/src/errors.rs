use vstd::prelude::*;

verus! {

/// The reasons an operation on the social store can fail. Every operation
/// either completes fully or returns one of these and leaves all state as it
/// was.
#[derive(Clone, Copy, PartialEq, Eq, Structural, Debug)]
pub enum SocialError {
    /// Registration with a name that is empty after trimming whitespace.
    EmptyName,
    /// Registration for an identity that already has a profile.
    DuplicateUser,
    /// The named record (profile or notification) does not exist.
    NotFound,
    /// An account may not follow itself.
    SelfFollow,
    /// The account to be followed is not registered.
    TargetNotFound,
    /// The account doing the following is not registered.
    ActorNotRegistered,
    /// A post, comment or message with no usable content.
    EmptyContent,
    /// The would-be author of a post is not registered.
    AuthorNotRegistered,
    /// The named post does not exist.
    PostNotFound,
    /// The post to be reposted does not exist.
    OriginalNotFound,
    /// The actor already has a repost of this post.
    AlreadyReposted,
    /// Only the owner of a record may change it.
    Unauthorized,
    /// The sender of a direct message is not registered.
    SenderNotRegistered,
    /// The receiver of a direct message is not registered.
    ReceiverNotFound,
    /// Neither party follows the other, so messaging is not permitted.
    NotAllowed,
    /// No conversation exists between the two accounts.
    NoConversation,
}

} // verus!
