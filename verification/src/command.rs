//! The groups that the built-in commands are sorted into.

use crate::process::StdinMode;
use vstd::prelude::*;

verus! {

/// The kind of work that a built-in command does.
#[derive(Clone, Copy, Debug, PartialEq, Eq, Structural)]
pub enum Group {
    General,
    Transformers,
    Mappers,
    Paths,
    Filters,
    Generators,
}

impl Default for Group {
    fn default() -> (group: Self)
        ensures
            group == Group::General,
    {
        Group::General
    }
}

/// What a built-in command is known by: its name and its group.
#[derive(Clone, Copy, Debug, PartialEq, Eq)]
pub struct Meta {
    pub name: &'static str,
    pub group: Group,
}

impl Group {
    /// The heading under which the help lists the group.
    pub open spec fn spec_name(self) -> Seq<char> {
        match self {
            Group::General => "Commands"@,
            Group::Transformers => "Transform commands"@,
            Group::Mappers => "Mapper commands"@,
            Group::Paths => "Path commands"@,
            Group::Filters => "Filter commands"@,
            Group::Generators => "Generator commands"@,
        }
    }

    /// What the help says of the group; nothing of the general one.
    pub open spec fn spec_description(self) -> Option<Seq<char>> {
        match self {
            Group::General => None,
            Group::Transformers => Some(
                "Transform input text to output. May output a different number of lines than was on input."@,
            ),
            Group::Mappers => Some(
                "Transform each input line to output. Should output the same number of lines as was on input."@,
            ),
            Group::Paths => Some(
                "Just like mapper commands but expect input lines to be filesystem paths."@,
            ),
            Group::Filters => Some("Output only certain input lines based on some criteria."@),
            Group::Generators => Some("Generate lines, ignore standard input."@),
        }
    }

    /// Generators ignore their input; every other command reads it.
    pub open spec fn spec_stdin_mode(self) -> StdinMode {
        if self == Group::Generators {
            StdinMode::Disconnected
        } else {
            StdinMode::Connected
        }
    }

    /// All groups, in the order in which the help lists them.
    pub open spec fn spec_values() -> Seq<Group> {
        seq![
            Group::General,
            Group::Transformers,
            Group::Mappers,
            Group::Paths,
            Group::Filters,
            Group::Generators,
        ]
    }

    /// The heading under which the help lists the group.
    pub fn name(&self) -> (name: &'static str)
        ensures
            name@ == self.spec_name(),
    {
        match self {
            Self::General => "Commands",
            Self::Transformers => "Transform commands",
            Self::Mappers => "Mapper commands",
            Self::Paths => "Path commands",
            Self::Filters => "Filter commands",
            Self::Generators => "Generator commands",
        }
    }

    /// What the help says of the group; nothing of the general one.
    pub fn description(&self) -> (description: Option<&'static str>)
        ensures
            match description {
                Some(text) => Some(text@) == self.spec_description(),
                None => self.spec_description() is None,
            },
    {
        match self {
            Self::General => None,
            Self::Transformers => Some(
                "Transform input text to output. May output a different number of lines than was on input.",
            ),
            Self::Mappers => Some(
                "Transform each input line to output. Should output the same number of lines as was on input.",
            ),
            Self::Paths => Some(
                "Just like mapper commands but expect input lines to be filesystem paths.",
            ),
            Self::Filters => Some("Output only certain input lines based on some criteria."),
            Self::Generators => Some("Generate lines, ignore standard input."),
        }
    }

    /// Whether the commands of the group read their input.
    pub fn stdin_mode(&self) -> (mode: StdinMode)
        ensures
            mode == self.spec_stdin_mode(),
    {
        match self {
            Self::Generators => StdinMode::Disconnected,
            _ => StdinMode::Connected,
        }
    }

    /// All groups, in the order in which the help lists them.
    pub fn values() -> (groups: Vec<Group>)
        ensures
            groups@ == Self::spec_values(),
    {
        let mut groups: Vec<Group> = Vec::new();
        groups.push(Self::General);
        groups.push(Self::Transformers);
        groups.push(Self::Mappers);
        groups.push(Self::Paths);
        groups.push(Self::Filters);
        groups.push(Self::Generators);
        assert(groups@ =~= Self::spec_values());
        groups
    }
}

} // verus!
