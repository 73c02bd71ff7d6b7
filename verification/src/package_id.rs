//! The ids of SDK packages: `path:version:channel`, and with the repository
//! in front, `repository:path:version:channel`.
use vstd::prelude::*;
use crate::plugin_config::SdkEntry;
use crate::repository::{channel_text, ChannelType, ChannelView, RemotePackage};
use crate::revision::{revision_text, Revision};
use crate::strs::append_str;

verus! {

/// The id of a package with this path, version and channel.
pub open spec fn id_text(path: Seq<char>, version: Revision, channel: ChannelView) -> Seq<char> {
    path + ":"@ + revision_text(version) + ":"@ + channel_text(channel)
}

/// The long id of a package of this repository with this path, version and
/// channel.
pub open spec fn long_id_text(repo: Seq<char>, path: Seq<char>, version: Revision, channel: ChannelView) -> Seq<char> {
    repo + ":"@ + id_text(path, version, channel)
}

/// Creates a package id based on package path, version and channel
pub trait ToId {
    /// The path, version and channel of the package.
    spec fn id_parts(&self) -> (Seq<char>, Revision, ChannelView);

    fn create_id(&self) -> (r: (&String, &Revision, &ChannelType))
        ensures
            (r.0@, *r.1, r.2@) == self.id_parts(),
    ;

    fn to_id(&self) -> (r: String)
        ensures
            r@ == id_text(self.id_parts().0, self.id_parts().1, self.id_parts().2),
    {
        let (path, version, channel) = self.create_id();
        let mut s = path.clone();
        append_str(&mut s, ":");
        append_str(&mut s, version.to_string().as_str());
        append_str(&mut s, ":");
        append_str(&mut s, channel.to_string().as_str());
        s
    }
}

/// Creates a package id based on package repo, path, version and channel
pub trait ToIdLong {
    /// The repository, path, version and channel of the package.
    spec fn long_id_parts(&self) -> (Seq<char>, Seq<char>, Revision, ChannelView);

    fn create_id(&self) -> (r: (&String, &String, &Revision, &ChannelType))
        ensures
            (r.0@, r.1@, *r.2, r.3@) == self.long_id_parts(),
    ;

    fn to_id_long(&self) -> (r: String)
        ensures
            r@ == long_id_text(
                self.long_id_parts().0,
                self.long_id_parts().1,
                self.long_id_parts().2,
                self.long_id_parts().3,
            ),
    {
        let (repo, path, version, channel) = self.create_id();
        let mut s = repo.clone();
        append_str(&mut s, ":");
        append_str(&mut s, path.as_str());
        append_str(&mut s, ":");
        append_str(&mut s, version.to_string().as_str());
        append_str(&mut s, ":");
        append_str(&mut s, channel.to_string().as_str());
        proof {
            assert(s@ =~= long_id_text(
                self.long_id_parts().0,
                self.long_id_parts().1,
                self.long_id_parts().2,
                self.long_id_parts().3,
            ));
        }
        s
    }
}

impl ToId for RemotePackage {
    open spec fn id_parts(&self) -> (Seq<char>, Revision, ChannelView) {
        (self@.path, self@.revision, self@.channel)
    }

    fn create_id(&self) -> (r: (&String, &Revision, &ChannelType)) {
        (self.get_path(), self.get_revision(), self.get_channel())
    }
}


impl ToId for SdkEntry {
    open spec fn id_parts(&self) -> (Seq<char>, Revision, ChannelView) {
        (self@.path, self@.version, self@.channel)
    }

    fn create_id(&self) -> (r: (&String, &Revision, &ChannelType)) {
        (&self.path, &self.version, &self.channel)
    }
}

impl ToIdLong for SdkEntry {
    open spec fn long_id_parts(&self) -> (Seq<char>, Seq<char>, Revision, ChannelView) {
        (self@.repo, self@.path, self@.version, self@.channel)
    }

    fn create_id(&self) -> (r: (&String, &String, &Revision, &ChannelType)) {
        (&self.repo, &self.path, &self.version, &self.channel)
    }
}

} // verus!
