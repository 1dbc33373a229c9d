//! Copying and comparing values by what they hold.
use vstd::prelude::*;

use crate::names::NameMap;

verus! {

/// A value that can be copied, with all that it holds.
pub trait DeepClone: DeepView + Sized {
    fn deep_clone(&self) -> (copy: Self)
        ensures
            copy.deep_view() == self.deep_view(),
    ;
}

/// A value that can be compared by all that it holds.
pub trait DeepEq: DeepView + Sized {
    fn deep_eq(&self, other: &Self) -> (same: bool)
        ensures
            same == (self.deep_view() == other.deep_view()),
    ;
}

impl DeepClone for String {
    fn deep_clone(&self) -> (copy: Self) {
        self.clone()
    }
}

impl DeepEq for String {
    fn deep_eq(&self, other: &Self) -> (same: bool) {
        *self == *other
    }
}

impl DeepClone for u16 {
    fn deep_clone(&self) -> (copy: Self) {
        *self
    }
}

impl DeepEq for u64 {
    fn deep_eq(&self, other: &Self) -> (same: bool) {
        *self == *other
    }
}

impl<T: DeepClone> DeepClone for Option<T> {
    fn deep_clone(&self) -> (copy: Self) {
        match self {
            Some(value) => Some(value.deep_clone()),
            None => None,
        }
    }
}

impl<T: DeepEq> DeepEq for Option<T> {
    fn deep_eq(&self, other: &Self) -> (same: bool) {
        match (self, other) {
            (Some(a), Some(b)) => a.deep_eq(b),
            (None, None) => true,
            _ => false,
        }
    }
}

impl<T: DeepClone> DeepClone for Vec<T> {
    fn deep_clone(&self) -> (copy: Self) {
        let mut copy: Vec<T> = Vec::new();
        let mut i: usize = 0;
        while i < self.len()
            invariant
                i <= self@.len(),
                copy@.len() == i,
                forall|j: int|
                    0 <= j < i ==> (#[trigger] copy@[j]).deep_view() == self@[j].deep_view(),
            decreases self@.len() - i,
        {
            copy.push(self[i].deep_clone());
            i = i + 1;
        }
        assert(copy.deep_view() =~= self.deep_view());
        copy
    }
}

impl<T: DeepEq> DeepEq for Vec<T> {
    fn deep_eq(&self, other: &Self) -> (same: bool) {
        if self.len() != other.len() {
            assert(self.deep_view().len() != other.deep_view().len());
            return false;
        }
        let mut i: usize = 0;
        while i < self.len()
            invariant
                i <= self@.len(),
                self@.len() == other@.len(),
                forall|j: int|
                    0 <= j < i ==> (#[trigger] self@[j]).deep_view() == other@[j].deep_view(),
            decreases self@.len() - i,
        {
            if !self[i].deep_eq(&other[i]) {
                assert(self.deep_view()[i as int] != other.deep_view()[i as int]);
                return false;
            }
            i = i + 1;
        }
        assert(self.deep_view() =~= other.deep_view());
        true
    }
}

impl<V: DeepClone> DeepClone for NameMap<V> {
    fn deep_clone(&self) -> (copy: Self) {
        self.copied()
    }
}

/// Appends copies of what `more` holds to `list`.
pub fn extend_with<T: DeepClone>(list: &mut Vec<T>, more: &Vec<T>)
    ensures
        final(list).deep_view() == old(list).deep_view() + more.deep_view(),
{
    let ghost before = list.deep_view();
    let mut copies = more.deep_clone();
    let ghost added = copies.deep_view();
    list.append(&mut copies);
    assert(list.deep_view() =~= before + added);
}

/// Whether `list` holds `name`.
pub fn holds_name(list: &Vec<String>, name: &str) -> (found: bool)
    ensures
        found == list.deep_view().contains(name@),
{
    let mut i: usize = 0;
    while i < list.len()
        invariant
            i <= list@.len(),
            forall|j: int| 0 <= j < i ==> (#[trigger] list@[j])@ != name@,
        decreases list@.len() - i,
    {
        if crate::text::same_text(list[i].as_str(), name) {
            assert(list.deep_view()[i as int] == name@);
            return true;
        }
        i = i + 1;
    }
    assert forall|j: int| 0 <= j < list.deep_view().len() implies list.deep_view()[j] != name@ by {
        assert(list@[j]@ != name@);
    }
    false
}

} // verus!
