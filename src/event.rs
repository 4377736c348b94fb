use vstd::prelude::*;

use crate::value::{
    fields_view, has_key, lemma_fields_view, lookup, put, put_field, take_field, keys_unique,
    without, Value, ValueModel, find_key,
};

verus! {

/// What an event carries besides its fields: the acknowledgement handles of the
/// upstream events that it stands for.
#[derive(Debug)]
pub struct EventMetadata {
    pub finalizers: Vec<u64>,
}

impl EventMetadata {
    /// Metadata with no finalizers.
    pub fn new() -> (r: EventMetadata)
        ensures
            r.finalizers@ == Seq::<u64>::empty(),
    {
        EventMetadata { finalizers: Vec::new() }
    }

    /// Joins the finalizers of `other` to these: every upstream event stays
    /// acknowledged by the merged event.
    pub fn merge(&mut self, other: EventMetadata)
        ensures
            final(self).finalizers@ == old(self).finalizers@ + other.finalizers@,
    {
        let mut other = other;
        self.finalizers.append(&mut other.finalizers);
    }
}

/// The fields after each entry of `entries` is bound in turn.
pub open spec fn put_all(
    fields: Seq<(Seq<char>, ValueModel)>,
    entries: Seq<(Seq<char>, ValueModel)>,
) -> Seq<(Seq<char>, ValueModel)>
    decreases entries.len(),
{
    if entries.len() == 0 {
        fields
    } else {
        put(put_all(fields, entries.drop_last()), entries.last().0, entries.last().1)
    }
}

/// A log event: an object of uniquely keyed fields, and its metadata.
#[derive(Debug)]
pub struct LogEvent {
    pub fields: Vec<(String, Value)>,
    pub metadata: EventMetadata,
}

impl LogEvent {
    /// No key occurs twice among the fields.
    pub open spec fn wf(&self) -> bool {
        keys_unique(fields_view(&self.fields))
    }

    /// The content of the event's fields.
    pub open spec fn model(&self) -> Seq<(Seq<char>, ValueModel)> {
        fields_view(&self.fields)
    }

    /// An event without fields.
    pub fn new_with_metadata(metadata: EventMetadata) -> (r: LogEvent)
        ensures
            r.wf(),
            r.model() == Seq::<(Seq<char>, ValueModel)>::empty(),
            r.metadata == metadata,
    {
        let r = LogEvent { fields: Vec::new(), metadata };
        proof {
            lemma_fields_view(&r.fields);
            assert(r.model() =~= Seq::<(Seq<char>, ValueModel)>::empty());
        }
        r
    }

    /// An event from a list of fields; where a key repeats, the later value wins.
    pub fn from_fields(fields: Vec<(String, Value)>, metadata: EventMetadata) -> (r: LogEvent)
        ensures
            r.wf(),
            r.metadata == metadata,
            r.model() == put_all(Seq::empty(), fields_view(&fields)),
    {
        let mut r = LogEvent::new_with_metadata(metadata);
        let mut fields = fields;
        let ghost orig = fields_view(&fields);
        proof {
            lemma_fields_view(&fields);
        }
        let total: usize = fields.len();
        let mut n: usize = 0;
        assert(r.model() =~= put_all(Seq::empty(), orig.subrange(0, 0)));
        while fields.len() > 0
            invariant
                r.wf(),
                r.metadata == metadata,
                n + fields.len() == total,
                orig.len() == total,
                forall|j: int| 0 <= j < fields.len() ==> (#[trigger] fields@[j]).0@ == orig[n + j].0 && fields@[j].1@ == orig[n + j].1,
                r.model() == put_all(Seq::empty(), orig.subrange(0, n as int)),
            decreases fields.len(),
        {
            let ghost prefix = orig.subrange(0, n + 1);
            assert(prefix.drop_last() =~= orig.subrange(0, n as int));
            let (k, v) = fields.remove(0);
            assert(prefix.last() == (k@, v@));
            r.insert(k, v);
            n += 1;
        }
        assert(orig.subrange(0, n as int) =~= orig);
        r
    }

    /// The value of the field `key`.
    pub fn get(&self, key: &String) -> (r: Option<&Value>)
        requires
            self.wf(),
        ensures
            match r {
                Some(v) => lookup(self.model(), key@) == Some(v@),
                None => lookup(self.model(), key@) is None,
            },
    {
        proof {
            lemma_fields_view(&self.fields);
        }
        match find_key(&self.fields, key) {
            Some(i) => {
                proof {
                    crate::value::lemma_key_index(self.model(), i as int);
                }
                Some(&self.fields[i].1)
            },
            None => {
                assert(!has_key(self.model(), key@));
                None
            },
        }
    }

    /// Sets the field `key` to `v`.
    pub fn insert(&mut self, key: String, v: Value)
        requires
            old(self).wf(),
        ensures
            final(self).wf(),
            final(self).model() == put(old(self).model(), key@, v@),
            final(self).metadata == old(self).metadata,
    {
        put_field(&mut self.fields, key, v);
    }

    /// Takes the field `key` out of the event.
    pub fn remove(&mut self, key: &String) -> (r: Option<Value>)
        requires
            old(self).wf(),
        ensures
            final(self).wf(),
            final(self).model() == without(old(self).model(), key@),
            final(self).metadata == old(self).metadata,
            match r {
                Some(v) => lookup(old(self).model(), key@) == Some(v@),
                None => lookup(old(self).model(), key@) is None,
            },
    {
        take_field(&mut self.fields, key)
    }
}

} // verus!
