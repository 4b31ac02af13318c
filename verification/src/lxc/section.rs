//! A read-only view of one section of a configuration.

use vstd::prelude::*;
use crate::lxc::config::{
    lists_keys, str_name_view, str_views, values_of, ConfLine, Config, SectionName,
};
use crate::text::string_views;

verus! {

/// One section of a configuration, for reading. `None` names the unnamed
/// section that a file starts in.
#[derive(Clone, Copy, Debug)]
pub struct SectionView<'s, 'c> {
    pub(crate) config: &'c Config,
    pub(crate) section: Option<&'s str>,
}

impl<'s, 'c> SectionView<'s, 'c> {
    /// The lines of the configuration that is viewed.
    pub closed spec fn lines(&self) -> Seq<ConfLine> {
        self.config@
    }

    /// The section that is viewed.
    pub closed spec fn name(&self) -> SectionName {
        str_name_view(self.section)
    }

    /// A view of `section` in `config`.
    pub fn new(config: &'c Config, section: Option<&'s str>) -> (view: Self)
        ensures
            view.lines() == config@,
            view.name() == str_name_view(section),
    {
        SectionView { config, section }
    }

    /// The values of `key` in this section, in the order of their lines.
    pub open spec fn values(&self, key: Seq<char>) -> Seq<Seq<char>> {
        values_of(self.lines(), self.name(), key)
    }

    /// The first value of `key` in this section.
    pub fn get(&self, key: &str) -> (r: Option<&'c str>)
        ensures
            match r {
                Some(value) => self.values(key@).len() > 0 && value@ == self.values(key@)[0],
                None => self.values(key@).len() == 0,
            },
    {
        match self.config.values(self.section, key) {
            Some(values) => {
                assert(string_views(values@)[0] == values@[0]@);
                Some(values[0].as_str())
            },
            None => None,
        }
    }

    /// The root-filesystem descriptor of this section.
    pub fn get_rootfs(&self) -> (r: Option<&'c str>)
        ensures
            match r {
                Some(value) => self.values("rootfs"@).len() > 0 && value@ == self.values(
                    "rootfs"@,
                )[0],
                None => self.values("rootfs"@).len() == 0,
            },
    {
        self.get("rootfs")
    }

    /// The value of `unprivileged` in this section.
    pub fn get_unprivileged(&self) -> (r: Option<&'c str>)
        ensures
            match r {
                Some(value) => self.values("unprivileged"@).len() > 0 && value@ == self.values(
                    "unprivileged"@,
                )[0],
                None => self.values("unprivileged"@).len() == 0,
            },
    {
        self.get("unprivileged")
    }

    /// All values of `key` in this section, in the order of their lines.
    pub fn get_all(&self, key: &str) -> (r: Vec<&'c str>)
        ensures
            str_views(r@) == self.values(key@),
    {
        let mut out: Vec<&'c str> = Vec::new();
        match self.config.values(self.section, key) {
            Some(values) => {
                let mut i: usize = 0;
                while i < values.len()
                    invariant
                        i <= values.len(),
                        str_views(out@) == string_views(values@).take(i as int),
                    decreases values.len() - i,
                {
                    let ghost before = out@;
                    out.push(values[i].as_str());
                    assert(str_views(out@) =~= str_views(before).push(values@[i as int]@));
                    assert(string_views(values@).take(i + 1) =~= string_views(values@).take(
                        i as int,
                    ).push(values@[i as int]@));
                    i = i + 1;
                }
                assert(string_views(values@).take(i as int) =~= string_views(values@));
            },
            None => {
                assert(str_views(out@) =~= self.values(key@));
            },
        }
        out
    }

    /// The ID mappings of this section: the values of `lxc.idmap`.
    pub fn get_lxc_idmaps(&self) -> (r: Vec<&'c str>)
        ensures
            str_views(r@) == self.values("lxc.idmap"@),
    {
        self.get_all("lxc.idmap")
    }

    /// Tells whether `key` has a value in this section.
    pub fn has_key(&self, key: &str) -> (r: bool)
        ensures
            r == (self.values(key@).len() > 0),
    {
        self.config.values(self.section, key).is_some()
    }

    /// The keys of this section, each once, in no particular order.
    pub fn keys(&self) -> (keys: Vec<&'c str>)
        ensures
            lists_keys(self.lines(), self.name(), str_views(keys@)),
    {
        self.config.keys(self.section)
    }

    /// Tells whether this section has an ID mapping.
    pub fn has_lxc_idmap(&self) -> (r: bool)
        ensures
            r == (self.values("lxc.idmap"@).len() > 0),
    {
        self.has_key("lxc.idmap")
    }
}

} // verus!
