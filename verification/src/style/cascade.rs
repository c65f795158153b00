//! The cascade: which of the declarations that apply to an element wins.

use crate::style::property::Property;
use crate::style::value::Value;
use vstd::prelude::*;

verus! {

/// Where a style sheet comes from, from the least to the most important.
#[derive(Debug, Clone, Copy, PartialEq, Eq, Structural)]
pub enum CascadeOrigin {
    UserAgent,
    User,
    Author,
}

/// Where a declaration stands: in a style sheet, or on the element itself.
#[derive(Debug, Clone, Copy, PartialEq, Eq, Structural)]
pub enum CSSLocation {
    ExternalOrEmbedded,
    Inline,
}

/// How specific a selector is: the number of its id selectors, of its
/// class and attribute selectors, and of its type selectors.
#[derive(Debug, Clone, Copy, PartialEq, Eq, Structural)]
pub struct Specificity {
    pub ids: usize,
    pub classes: usize,
    pub types: usize,
}

/// A declaration that applies to an element, with what the cascade needs
/// to know of it. The source order is the order in the list.
#[derive(Debug, Clone, Copy, PartialEq, Eq, Structural)]
pub struct Declaration {
    pub property: Property,
    pub value: Value,
    pub origin: CascadeOrigin,
    pub location: CSSLocation,
    pub specificity: Specificity,
}

/// The importance of an origin.
pub open spec fn origin_rank(origin: CascadeOrigin) -> int {
    match origin {
        CascadeOrigin::UserAgent => 0,
        CascadeOrigin::User => 1,
        CascadeOrigin::Author => 2,
    }
}

/// A declaration on the element itself is more specific than any in a
/// style sheet.
pub open spec fn location_rank(location: CSSLocation) -> int {
    match location {
        CSSLocation::ExternalOrEmbedded => 0,
        CSSLocation::Inline => 1,
    }
}

impl Specificity {
    /// Whether `self` is less specific than `other`: fewer id selectors;
    /// or as many, and fewer class selectors; or as many of both, and
    /// fewer type selectors.
    pub open spec fn below(self, other: Specificity) -> bool {
        self.ids < other.ids || (self.ids == other.ids && (self.classes < other.classes || (
        self.classes == other.classes && self.types < other.types)))
    }

    /// Whether `self` is less specific than `other`.
    pub fn is_below(&self, other: &Specificity) -> (r: bool)
        ensures
            r == self.below(*other),
    {
        self.ids < other.ids || (self.ids == other.ids && (self.classes < other.classes || (
        self.classes == other.classes && self.types < other.types)))
    }
}

impl Declaration {
    /// Whether `self` yields to `other` whatever their order: its origin
    /// is less important; or the origins are the same and it stands in a
    /// style sheet while `other` stands on the element; or origin and
    /// location are the same and it is less specific.
    pub open spec fn below(self, other: Declaration) -> bool {
        origin_rank(self.origin) < origin_rank(other.origin) || (self.origin == other.origin && (
        location_rank(self.location) < location_rank(other.location) || (self.location
            == other.location && self.specificity.below(other.specificity))))
    }

    /// Whether `self` yields to `other` whatever their order.
    pub fn is_below(&self, other: &Declaration) -> (r: bool)
        ensures
            r == self.below(*other),
    {
        let mine = origin_of(self.origin);
        let theirs = origin_of(other.origin);
        let here = location_of(self.location);
        let there = location_of(other.location);
        mine < theirs || (mine == theirs && (here < there || (here == there
            && self.specificity.is_below(&other.specificity))))
    }
}

fn origin_of(origin: CascadeOrigin) -> (r: u8)
    ensures
        r == origin_rank(origin),
{
    match origin {
        CascadeOrigin::UserAgent => 0,
        CascadeOrigin::User => 1,
        CascadeOrigin::Author => 2,
    }
}

fn location_of(location: CSSLocation) -> (r: u8)
    ensures
        r == location_rank(location),
{
    match location {
        CSSLocation::ExternalOrEmbedded => 0,
        CSSLocation::Inline => 1,
    }
}

/// Whether the declaration at `i` wins the cascade for `property`: it is
/// for the property, no declaration for the property before it is above
/// it, and every one after it is below it.
pub open spec fn wins(declarations: Seq<Declaration>, property: Property, i: int) -> bool {
    &&& 0 <= i < declarations.len()
    &&& declarations[i].property == property
    &&& forall|j: int|
        0 <= j < i && (#[trigger] declarations[j]).property == property ==> !declarations[i].below(
            declarations[j],
        )
    &&& forall|j: int|
        i < j < declarations.len() && (#[trigger] declarations[j]).property == property
            ==> declarations[j].below(declarations[i])
}

/// Whether any declaration is for `property`.
pub open spec fn declared(declarations: Seq<Declaration>, property: Property) -> bool {
    exists|i: int| 0 <= i < declarations.len() && (#[trigger] declarations[i]).property == property
}

/// Being below is transitive, and no declaration is below itself.
pub proof fn lemma_below_is_an_order(a: Declaration, b: Declaration, c: Declaration)
    ensures
        !a.below(a),
        a.below(b) && b.below(c) ==> a.below(c),
        a.below(b) ==> !b.below(a),
        !a.below(b) && !b.below(c) ==> !a.below(c),
{
}

/// At most one declaration wins.
pub proof fn lemma_one_winner(declarations: Seq<Declaration>, property: Property, i: int, j: int)
    requires
        wins(declarations, property, i),
        wins(declarations, property, j),
    ensures
        i == j,
{
    if i < j {
        assert(declarations[j].below(declarations[i]));
        assert(!declarations[j].below(declarations[i]));
    } else if j < i {
        assert(declarations[i].below(declarations[j]));
        assert(!declarations[i].below(declarations[j]));
    }
}

/// The value that the cascade gives `property`: that of the declaration
/// that wins; `None` where no declaration is for the property.
pub open spec fn cascaded(declarations: Seq<Declaration>, property: Property) -> Option<Value> {
    if exists|i: int| wins(declarations, property, i) {
        Some(declarations[choose|i: int| wins(declarations, property, i)].value)
    } else {
        None
    }
}

/// The place of the declaration that wins the cascade for `property`:
/// by origin, then by location, then by specificity, and among equals the
/// last in source order. `None` where no declaration is for the property.
pub fn winner(declarations: &Vec<Declaration>, property: Property) -> (r: Option<usize>)
    ensures
        match r {
            Some(i) => wins(declarations@, property, i as int),
            None => !declared(declarations@, property),
        },
{
    let mut best: Option<usize> = None;
    let mut i: usize = 0;
    while i < declarations.len()
        invariant
            i <= declarations.len(),
            match best {
                Some(b) => wins(declarations@.subrange(0, i as int), property, b as int),
                None => !declared(declarations@.subrange(0, i as int), property),
            },
        decreases declarations.len() - i,
    {
        let ghost before = declarations@.subrange(0, i as int);
        let ghost after = declarations@.subrange(0, i + 1);
        let d = &declarations[i];
        assert(after[i as int] == *d);
        assert forall|j: int| 0 <= j < i implies after[j] == before[j] by {}
        if same_property(&d.property, &property) {
            let takes_over = match best {
                Some(b) => !d.is_below(&declarations[b]),
                None => true,
            };
            if takes_over {
                proof {
                    match best {
                        Some(b) => {
                            assert(before[b as int] == declarations@[b as int]);
                            assert forall|j: int|
                                0 <= j < i && (#[trigger] after[j]).property
                                    == property implies !after[i as int].below(after[j]) by {
                                assert(before[j].property == property);
                                if j < b {
                                    lemma_below_is_an_order(*d, before[b as int], before[j]);
                                    lemma_below_is_an_order(before[b as int], before[j], *d);
                                } else if j > b {
                                    lemma_below_is_an_order(before[j], before[b as int], *d);
                                    lemma_below_is_an_order(*d, before[j], before[b as int]);
                                }
                            }
                        },
                        None => {
                            assert forall|j: int|
                                0 <= j < i && (#[trigger] after[j]).property
                                    == property implies !after[i as int].below(after[j]) by {
                                assert(before[j].property == property);
                            }
                        },
                    }
                }
                best = Some(i);
            } else {
                proof {
                    let b = best->0 as int;
                    assert(before[b] == declarations@[b]);
                    assert forall|j: int|
                        b < j < after.len() && (#[trigger] after[j]).property
                            == property implies after[j].below(after[b]) by {
                        if j < i {
                            assert(before[j].property == property);
                        }
                    }
                    assert forall|j: int|
                        0 <= j < b && (#[trigger] after[j]).property == property implies !after[b].below(
                        after[j],
                    ) by {
                        assert(before[j].property == property);
                    }
                }
            }
        } else {
            proof {
                match best {
                    Some(b) => {
                        assert forall|j: int|
                            b < j < after.len() && (#[trigger] after[j]).property
                                == property implies after[j].below(after[b as int]) by {
                            assert(before[j].property == property);
                        }
                        assert forall|j: int|
                            0 <= j < b && (#[trigger] after[j]).property
                                == property implies !after[b as int].below(after[j]) by {
                            assert(before[j].property == property);
                        }
                    },
                    None => {
                        assert forall|j: int| 0 <= j < after.len() implies (
                        #[trigger] after[j]).property != property by {
                            if j < i {
                                assert(before[j].property != property);
                            }
                        }
                    },
                }
            }
        }
        i += 1;
    }
    assert(declarations@.subrange(0, declarations.len() as int) =~= declarations@);
    best
}

/// The value that the cascade gives `property`.
pub fn cascaded_value(declarations: &Vec<Declaration>, property: Property) -> (r: Option<Value>)
    ensures
        r == cascaded(declarations@, property),
        r is Some == declared(declarations@, property),
{
    match winner(declarations, property) {
        Some(i) => {
            proof {
                let j = choose|j: int| wins(declarations@, property, j);
                lemma_one_winner(declarations@, property, i as int, j);
            }
            Some(declarations[i].value)
        },
        None => {
            assert forall|i: int| !wins(declarations@, property, i) by {
                if wins(declarations@, property, i) {
                    assert(declarations@[i].property == property);
                }
            }
            None
        },
    }
}

fn same_property(a: &Property, b: &Property) -> (r: bool)
    ensures
        r == (*a == *b),
{
    *a == *b
}

} // verus!
