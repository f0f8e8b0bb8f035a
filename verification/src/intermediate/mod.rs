//! The intermediate representation of ASN.1 definitions.

pub mod constraints;
pub mod error;
pub mod information_object;
pub mod integers;
pub mod tagging;
pub mod toplevel;
pub mod types;
pub mod values;

use vstd::prelude::*;

verus! {

/// How tags are applied where a tag does not say so itself.
///
/// On a module it is the module's default. On a tag, `Automatic` means that
/// the tag names no mode of its own and takes the module's.
#[derive(Debug, Clone, Copy, PartialEq, Eq, Structural)]
pub enum TaggingEnvironment {
    Automatic,
    Implicit,
    Explicit,
}

impl TaggingEnvironment {
    /// The mode of a tag written with mode `own` in a module whose default is `self`.
    pub open spec fn applied_to(self, own: TaggingEnvironment) -> TaggingEnvironment {
        if own == TaggingEnvironment::Automatic {
            self
        } else {
            own
        }
    }

    /// Computes [`Self::applied_to`].
    pub fn apply_to(self, own: TaggingEnvironment) -> (r: TaggingEnvironment)
        ensures
            r == self.applied_to(own),
    {
        match own {
            TaggingEnvironment::Automatic => self,
            TaggingEnvironment::Implicit => TaggingEnvironment::Implicit,
            TaggingEnvironment::Explicit => TaggingEnvironment::Explicit,
        }
    }
}

#[derive(Debug, Clone, Copy, PartialEq, Eq, Structural)]
pub enum TagClass {
    Universal,
    Application,
    Private,
    ContextSpecific,
}

/// A tag written in front of a type.
#[derive(Debug, Clone, Copy, PartialEq, Eq, Structural)]
pub struct AsnTag {
    pub environment: TaggingEnvironment,
    pub tag_class: TagClass,
    pub id: u64,
}

impl AsnTag {
    /// The tag as it reads in a module whose default is `environment`.
    pub open spec fn in_environment(self, environment: TaggingEnvironment) -> AsnTag {
        AsnTag { environment: environment.applied_to(self.environment), ..self }
    }
}

/// An optional tag as it reads in a module whose default is `environment`.
pub open spec fn tag_in_environment(tag: Option<AsnTag>, environment: TaggingEnvironment) -> Option<AsnTag> {
    match tag {
        Some(t) => Some(t.in_environment(environment)),
        None => None,
    }
}

/// Computes [`tag_in_environment`].
pub fn apply_environment_to_tag(tag: &Option<AsnTag>, environment: TaggingEnvironment) -> (r: Option<AsnTag>)
    ensures
        r == tag_in_environment(*tag, environment),
{
    match tag {
        Some(t) => Some(
            AsnTag { environment: environment.apply_to(t.environment), tag_class: t.tag_class, id: t.id },
        ),
        None => None,
    }
}

} // verus!
