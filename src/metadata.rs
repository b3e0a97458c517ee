use vstd::prelude::*;
use crate::pid::Pid;
use crate::timestamp::Timestamp;
use crate::unsorted_set::Keyed;

verus! {

/// A scalar value of process metadata.
#[derive(Clone, Debug, PartialEq)]
pub enum MetaValue {
    OwnedString(String),
    StaticStr(&'static str),
    Unsigned(u64),
    Signed(i64),
    Pid(Pid),
    Timestamp(Timestamp),
}

impl MetaValue {
    /// A copy of this value that Verus knows to be equal to it.
    pub fn duplicate(&self) -> (r: MetaValue)
        ensures
            r == *self,
    {
        match self {
            MetaValue::OwnedString(s) => MetaValue::OwnedString(s.clone()),
            MetaValue::StaticStr(s) => MetaValue::StaticStr(*s),
            MetaValue::Unsigned(n) => MetaValue::Unsigned(*n),
            MetaValue::Signed(n) => MetaValue::Signed(*n),
            MetaValue::Pid(p) => MetaValue::Pid(*p),
            MetaValue::Timestamp(t) => MetaValue::Timestamp(*t),
        }
    }
}

/// One metadata entry. Entries are told apart by their key alone.
#[derive(Clone, Debug)]
pub struct MetaKeyValue {
    pub key: String,
    pub value: MetaValue,
}

impl Keyed for MetaKeyValue {
    type Key = Seq<char>;

    open spec fn key(&self) -> Seq<char> {
        self.key@
    }

    fn same_key(&self, other: &Self) -> (r: bool) {
        self.key == other.key
    }

    fn copy_item(&self) -> (r: Self) {
        MetaKeyValue { key: self.key.clone(), value: self.value.duplicate() }
    }
}

} // verus!
