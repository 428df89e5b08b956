//! Structural edits on a parsed container: removing a section, or replacing
//! the payload of one.
//!
//! An edit touches the section list only. The header's `total_length` and
//! `checksum` are left as they are and are recomputed when the container is
//! serialized.

use crate::container::{spec_section_views, Section, SectionView, VmStateContainer};
use vstd::prelude::*;

verus! {

/// Names the section an edit applies to: the sections of type `type_id`,
/// and, where several share that type, which of them, counted from zero in
/// file order.
#[derive(Clone, Copy, Debug, PartialEq, Eq)]
pub struct SectionSelector {
    pub type_id: u32,
    pub index: Option<usize>,
}

/// Why a selector did not pick a section.
#[derive(Clone, Copy, Debug, PartialEq, Eq, Structural)]
pub enum PatchError {
    /// No section has the selector's type, or fewer have it than the
    /// selector's index asks for.
    SectionNotFound,
    /// Several sections have the selector's type and the selector gives no
    /// index.
    AmbiguousSelector,
}

/// How many of `sections` have type `type_id`.
pub open spec fn spec_count_matching(sections: Seq<SectionView>, type_id: u32) -> nat
    decreases sections.len(),
{
    if sections.len() == 0 {
        0
    } else {
        spec_count_matching(sections.drop_last(), type_id) + if sections.last().type_id
            == type_id {
            1nat
        } else {
            0nat
        }
    }
}

/// The position of the section of type `type_id` that has exactly `n`
/// sections of that type before it, if there is one.
pub open spec fn spec_nth_match(sections: Seq<SectionView>, type_id: u32, n: nat) -> Option<int>
    decreases sections.len(),
{
    if sections.len() == 0 {
        None
    } else {
        let front = sections.drop_last();
        if sections.last().type_id == type_id && spec_count_matching(front, type_id) == n {
            Some(sections.len() - 1)
        } else {
            spec_nth_match(front, type_id, n)
        }
    }
}

/// The position that `selector` picks in `sections`, or why it picks none.
pub open spec fn spec_select(sections: Seq<SectionView>, selector: SectionSelector) -> Result<
    int,
    PatchError,
> {
    let count = spec_count_matching(sections, selector.type_id);
    match selector.index {
        Some(n) => if n < count {
            Ok(spec_nth_match(sections, selector.type_id, n as nat).unwrap())
        } else {
            Err(PatchError::SectionNotFound)
        },
        None => if count == 0 {
            Err(PatchError::SectionNotFound)
        } else if count == 1 {
            Ok(spec_nth_match(sections, selector.type_id, 0).unwrap())
        } else {
            Err(PatchError::AmbiguousSelector)
        },
    }
}

/// The section at `position` with its payload replaced.
pub open spec fn spec_with_payload(section: SectionView, payload: Seq<u8>) -> SectionView {
    SectionView { type_id: section.type_id, version: section.version, payload }
}

/// There is an `n`-th section of a type exactly when more than `n` sections
/// have that type, and it is then a section of that type with `n` of them
/// before it.
pub proof fn lemma_nth_match(sections: Seq<SectionView>, type_id: u32, n: nat)
    ensures
        spec_nth_match(sections, type_id, n).is_some() <==> n < spec_count_matching(
            sections,
            type_id,
        ),
        spec_count_matching(sections, type_id) <= sections.len(),
        spec_nth_match(sections, type_id, n) matches Some(p) ==> {
            &&& 0 <= p < sections.len()
            &&& sections[p].type_id == type_id
            &&& spec_count_matching(sections.take(p), type_id) == n
        },
    decreases sections.len(),
{
    if sections.len() > 0 {
        let front = sections.drop_last();
        lemma_nth_match(front, type_id, n);
        match spec_nth_match(sections, type_id, n) {
            Some(p) => {
                if p == sections.len() - 1 {
                    assert(sections.take(p) =~= front);
                } else {
                    assert(sections.take(p) =~= front.take(p));
                }
            },
            None => {},
        }
    }
}

/// A selector that picks a position picks a section of its own type, and
/// the one that its index counts to.
pub proof fn lemma_select_picks_match(sections: Seq<SectionView>, selector: SectionSelector)
    requires
        spec_select(sections, selector) is Ok,
    ensures
        ({
            let p = spec_select(sections, selector)->Ok_0;
            &&& 0 <= p < sections.len()
            &&& sections[p].type_id == selector.type_id
            &&& selector.index matches Some(n) ==> spec_count_matching(
                sections.take(p),
                selector.type_id,
            ) == n
            &&& selector.index is None ==> spec_count_matching(sections, selector.type_id) == 1
        }),
{
    match selector.index {
        Some(n) => lemma_nth_match(sections, selector.type_id, n as nat),
        None => lemma_nth_match(sections, selector.type_id, 0),
    }
}

/// Removing a section lowers the count of its type by one and leaves the
/// count of every other type as it was.
pub proof fn lemma_count_after_remove(sections: Seq<SectionView>, p: int, type_id: u32)
    requires
        0 <= p < sections.len(),
    ensures
        spec_count_matching(sections.remove(p), type_id) + (if sections[p].type_id == type_id {
            1nat
        } else {
            0nat
        }) == spec_count_matching(sections, type_id),
    decreases sections.len(),
{
    if p == sections.len() - 1 {
        assert(sections.remove(p) =~= sections.drop_last());
    } else {
        assert(sections.remove(p).drop_last() =~= sections.drop_last().remove(p));
        lemma_count_after_remove(sections.drop_last(), p, type_id);
    }
}

/// Finds the position that `selector` picks among `sections`.
pub fn select(sections: &Vec<Section>, selector: &SectionSelector) -> (r: Result<
    usize,
    PatchError,
>)
    ensures
        match spec_select(spec_section_views(sections@), *selector) {
            Ok(p) => r == Ok::<usize, PatchError>(p as usize) && 0 <= p < sections.len(),
            Err(e) => r == Err::<usize, PatchError>(e),
        },
{
    let ghost views = spec_section_views(sections@);
    let target: usize = match selector.index {
        Some(n) => n,
        None => 0,
    };
    let mut seen: usize = 0;
    let mut found: Option<usize> = None;
    let mut i: usize = 0;
    proof {
        assert(views.take(0) =~= Seq::<SectionView>::empty());
    }
    while i < sections.len()
        invariant
            i <= sections.len(),
            views == spec_section_views(sections@),
            seen == spec_count_matching(views.take(i as int), selector.type_id),
            seen <= i,
            match found {
                Some(p) => spec_nth_match(views.take(i as int), selector.type_id, target as nat)
                    == Some(p as int),
                None => spec_nth_match(views.take(i as int), selector.type_id, target as nat)
                    .is_none(),
            },
        decreases sections.len() - i,
    {
        proof {
            assert(views.take(i + 1).drop_last() =~= views.take(i as int));
            assert(views.take(i + 1).last() == sections@[i as int]@);
        }
        if sections[i].type_id == selector.type_id {
            if seen == target {
                found = Some(i);
            }
            seen += 1;
        }
        i += 1;
    }
    proof {
        assert(views.take(i as int) =~= views);
        lemma_nth_match(views, selector.type_id, target as nat);
    }
    if seen == 0 {
        return Err(PatchError::SectionNotFound);
    }
    if selector.index.is_none() && seen > 1 {
        return Err(PatchError::AmbiguousSelector);
    }
    match found {
        Some(p) => Ok(p),
        None => Err(PatchError::SectionNotFound),
    }
}

/// Deletes the section that `selector` picks. The sections before and after
/// it keep their order and content, and the header is not touched.
///
/// Fails, leaving the container as it was, with `SectionNotFound` when no
/// section matches and with `AmbiguousSelector` when several match and the
/// selector gives no index.
pub fn remove(container: &mut VmStateContainer, selector: &SectionSelector) -> (r: Result<
    (),
    PatchError,
>)
    ensures
        match spec_select(old(container)@.sections, *selector) {
            Ok(p) => {
                &&& r is Ok
                &&& final(container)@.sections == old(container)@.sections.remove(p)
                &&& final(container).header == old(container).header
            },
            Err(e) => r == Err::<(), PatchError>(e) && *final(container) == *old(container),
        },
{
    let position = match select(&container.sections, selector) {
        Ok(p) => p,
        Err(e) => {
            return Err(e);
        },
    };
    let ghost before = container.sections@;
    container.sections.remove(position);
    proof {
        assert(spec_section_views(before.remove(position as int)) =~= spec_section_views(
            before,
        ).remove(position as int));
    }
    Ok(())
}

/// Puts `payload` in place of the payload of the section that `selector`
/// picks. The section keeps its type, version and position, every other
/// section is left as it was, and the header is not touched.
///
/// Fails, leaving the container as it was, with `SectionNotFound` when no
/// section matches and with `AmbiguousSelector` when several match and the
/// selector gives no index.
pub fn replace(
    container: &mut VmStateContainer,
    selector: &SectionSelector,
    payload: Vec<u8>,
) -> (r: Result<(), PatchError>)
    ensures
        match spec_select(old(container)@.sections, *selector) {
            Ok(p) => {
                &&& r is Ok
                &&& final(container)@.sections == old(container)@.sections.update(
                    p,
                    spec_with_payload(old(container)@.sections[p], payload@),
                )
                &&& final(container).header == old(container).header
            },
            Err(e) => r == Err::<(), PatchError>(e) && *final(container) == *old(container),
        },
{
    let position = match select(&container.sections, selector) {
        Ok(p) => p,
        Err(e) => {
            return Err(e);
        },
    };
    let ghost new_payload = payload@;
    let type_id = container.sections[position].type_id;
    let version = container.sections[position].version;
    container.sections[position] = Section { type_id, version, payload };
    proof {
        assert(container@.sections =~= old(container)@.sections.update(
            position as int,
            spec_with_payload(old(container)@.sections[position as int], new_payload),
        ));
    }
    Ok(())
}

} // verus!
