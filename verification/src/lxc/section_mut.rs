//! A view of one section of a configuration through which it is changed.

use vstd::prelude::*;
use crate::lxc::config::{str_name_view, with_value, without_key, ConfLine, Config, SectionName};

verus! {

/// One section of a configuration, for writing. `None` names the unnamed
/// section that a file starts in. Lines and index of the configuration are
/// changed together, so that they agree after every call.
#[derive(Debug)]
pub struct SectionViewMut<'s, 'c> {
    pub config: &'c mut Config,
    pub section: Option<&'s str>,
}

impl<'s, 'c> SectionViewMut<'s, 'c> {
    /// The lines of the configuration that is viewed.
    pub open spec fn lines(&self) -> Seq<ConfLine> {
        self.config@
    }

    /// The section that is viewed.
    pub open spec fn name(&self) -> SectionName {
        str_name_view(self.section)
    }

    /// Gives `key` the one value `value` in this section: the lines that
    /// set it are removed and a line with the new value is appended.
    pub fn set(&mut self, key: &str, value: &str)
        ensures
            final(self).lines() == with_value(
                without_key(old(self).lines(), old(self).name(), key@),
                old(self).name(),
                key@,
                value@,
            ),
            final(self).name() == old(self).name(),
            *final(final(self).config) == *final(old(self).config),
    {
        self.remove_all(key);
        self.append(key, value);
    }

    /// Gives `key` one more value in this section, in a new line behind
    /// the section's last key.
    pub fn append(&mut self, key: &str, value: &str)
        ensures
            final(self).lines() == with_value(old(self).lines(), old(self).name(), key@, value@),
            final(self).name() == old(self).name(),
            *final(final(self).config) == *final(old(self).config),
    {
        self.config.append(self.section, key, value);
    }

    /// Removes every line that sets `key` in this section.
    pub fn remove_all(&mut self, key: &str)
        ensures
            final(self).lines() == without_key(old(self).lines(), old(self).name(), key@),
            final(self).name() == old(self).name(),
            *final(final(self).config) == *final(old(self).config),
    {
        self.config.remove_all(self.section, key);
    }
}

} // verus!
