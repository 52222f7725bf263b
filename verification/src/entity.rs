//! The entity property store: a key/value record parsed from one
//! `{ ... }` block of the level's entity text.
//!
//! The text is handled as raw bytes; the delimiters are ASCII, so byte
//! scanning matches character scanning on every UTF-8 input.

use vstd::prelude::*;

verus! {

/// The position of the first occurrence of `b` in `s` at or after
/// `from`, or `-1` if there is none.
pub open spec fn spec_find_byte(s: Seq<u8>, from: int, b: u8) -> int
    decreases s.len() - from,
{
    if from < 0 || from >= s.len() {
        -1
    } else if s[from] == b {
        from
    } else {
        spec_find_byte(s, from + 1, b)
    }
}

/// What `spec_find_byte` returns: either `-1`, or the first position of
/// `b` in the searched window.
pub proof fn lemma_find_byte(s: Seq<u8>, from: int, b: u8)
    requires
        0 <= from,
    ensures
        spec_find_byte(s, from, b) == -1 || (from <= spec_find_byte(s, from, b) < s.len()
            && s[spec_find_byte(s, from, b)] == b),
    decreases s.len() - from,
{
    if from < s.len() && s[from] != b {
        lemma_find_byte(s, from + 1, b);
    }
}

/// First position of `b` at or after `from`, as the executable search.
pub fn find_byte(data: &Vec<u8>, from: usize, b: u8) -> (r: Option<usize>)
    ensures
        r is None <==> spec_find_byte(data@, from as int, b) == -1,
        r is Some ==> r->Some_0 == spec_find_byte(data@, from as int, b)
            && from <= r->Some_0 < data@.len(),
{
    let n: usize = data.len();
    let mut i: usize = from;
    while i < n
        invariant
            from <= i,
            n == data@.len(),
            spec_find_byte(data@, from as int, b) == spec_find_byte(data@, i as int, b),
        decreases n - i,
    {
        if data[i] == b {
            proof {
                lemma_find_byte(data@, i as int, b);
            }
            return Some(i);
        }
        i = i + 1;
    }
    None
}

/// The key/value pairs of one entity block, in the order the parser
/// emits them.  Each pair is a quoted key followed by a quoted value; the
/// scan stops at the first quote that has no closing partner.
pub open spec fn spec_parse_props(s: Seq<u8>, pos: int) -> Seq<(Seq<u8>, Seq<u8>)>
    decreases s.len() - pos,
    when 0 <= pos
    via parse_props_decreases
{
    let q1 = spec_find_byte(s, pos, 34);
    let q2 = spec_find_byte(s, q1 + 1, 34);
    let q3 = spec_find_byte(s, q2 + 1, 34);
    let q4 = spec_find_byte(s, q3 + 1, 34);
    if q1 == -1 || q2 == -1 || q3 == -1 || q4 == -1 {
        Seq::empty()
    } else {
        seq![(s.subrange(q1 + 1, q2), s.subrange(q3 + 1, q4))] + spec_parse_props(s, q4 + 1)
    }
}

/// An unordered string-to-string property map, as one entity of the
/// level carries it.  A later pair with the same key shadows an earlier
/// one, as insertion into a map would.
#[derive(Clone, PartialEq, Eq, Debug)]
pub struct Entity {
    pub properties: Vec<(Vec<u8>, Vec<u8>)>,
}

/// The value bound to `name`: that of the last pair carrying it.
pub open spec fn spec_lookup(props: Seq<(Seq<u8>, Seq<u8>)>, name: Seq<u8>) -> Option<Seq<u8>>
    decreases props.len(),
{
    if props.len() == 0 {
        None
    } else if props.last().0 == name {
        Some(props.last().1)
    } else {
        spec_lookup(props.drop_last(), name)
    }
}

impl Entity {
    /// The parsed pairs, as sequences of bytes.
    pub open spec fn spec_props(self) -> Seq<(Seq<u8>, Seq<u8>)> {
        Seq::new(
            self.properties@.len(),
            |i: int| (self.properties@[i].0@, self.properties@[i].1@),
        )
    }

    /// Parses the text of one entity block into its property pairs.
    /// Unlike a missing opening quote, a quote left unclosed ends the
    /// scan with the pairs read so far.
    pub fn new(properties_string: &Vec<u8>) -> (r: Self)
        ensures
            r.spec_props() == spec_parse_props(properties_string@, 0),
    {
        let s = properties_string;
        let n: usize = s.len();
        let mut properties: Vec<(Vec<u8>, Vec<u8>)> = Vec::new();
        let mut pos: usize = 0;
        loop
            invariant
                s@ == properties_string@,
                n == s@.len(),
                Seq::new(properties@.len(), |i: int| (properties@[i].0@, properties@[i].1@))
                    + spec_parse_props(s@, pos as int) == spec_parse_props(s@, 0),
            decreases s@.len() - pos,
        {
            let ghost props_before = Seq::new(
                properties@.len(),
                |i: int| (properties@[i].0@, properties@[i].1@),
            );
            proof {
                assert(props_before + spec_parse_props(s@, pos as int) =~= spec_parse_props(
                    s@,
                    0,
                ));
            }
            let q1 = match find_byte(s, pos, 34) {
                Some(v) => v,
                None => {
                    proof {
                        assert(spec_parse_props(s@, pos as int)
                            =~= Seq::<(Seq<u8>, Seq<u8>)>::empty());
                        assert(props_before =~= spec_parse_props(s@, 0));
                        assert((Entity { properties }).spec_props() =~= props_before);
                    }
                    return Entity { properties };
                },
            };
            let q2 = match find_byte(s, q1 + 1, 34) {
                Some(v) => v,
                None => {
                    proof {
                        assert(q1 == spec_find_byte(s@, pos as int, 34));
                        assert(spec_find_byte(s@, q1 + 1, 34) == -1);
                        assert(spec_parse_props(s@, pos as int)
                            =~= Seq::<(Seq<u8>, Seq<u8>)>::empty());
                        assert(props_before =~= spec_parse_props(s@, 0));
                        assert((Entity { properties }).spec_props() =~= props_before);
                    }
                    return Entity { properties };
                },
            };
            let q3 = match find_byte(s, q2 + 1, 34) {
                Some(v) => v,
                None => {
                    proof {
                        assert(spec_parse_props(s@, pos as int)
                            =~= Seq::<(Seq<u8>, Seq<u8>)>::empty());
                        assert(props_before =~= spec_parse_props(s@, 0));
                        assert((Entity { properties }).spec_props() =~= props_before);
                    }
                    return Entity { properties };
                },
            };
            let q4 = match find_byte(s, q3 + 1, 34) {
                Some(v) => v,
                None => {
                    proof {
                        assert(spec_parse_props(s@, pos as int)
                            =~= Seq::<(Seq<u8>, Seq<u8>)>::empty());
                        assert(props_before =~= spec_parse_props(s@, 0));
                        assert((Entity { properties }).spec_props() =~= props_before);
                    }
                    return Entity { properties };
                },
            };
            let key = copy_range(s, q1 + 1, q2);
            let value = copy_range(s, q3 + 1, q4);
            properties.push((key, value));
            proof {
                let props_now = Seq::new(
                    properties@.len(),
                    |i: int| (properties@[i].0@, properties@[i].1@),
                );
                assert(props_now =~= props_before + seq![(
                    s@.subrange(q1 + 1, q2 as int),
                    s@.subrange(q3 + 1, q4 as int),
                )]);
                assert(spec_parse_props(s@, pos as int) == seq![(
                    s@.subrange(q1 + 1, q2 as int),
                    s@.subrange(q3 + 1, q4 as int),
                )] + spec_parse_props(s@, q4 + 1));
                assert(props_now + spec_parse_props(s@, q4 + 1) =~= spec_parse_props(s@, 0));
            }
            pos = q4 + 1;
        }
    }

    /// Looks the property up by its exact byte name.
    pub fn find_property(&self, name: &Vec<u8>) -> (r: Option<&Vec<u8>>)
        ensures
            r is Some <==> spec_lookup(self.spec_props(), name@) is Some,
            r is Some ==> Some(r->Some_0@) == spec_lookup(self.spec_props(), name@),
    {
        let mut i: usize = self.properties.len();
        proof {
            assert(self.spec_props().take(i as int) =~= self.spec_props());
        }
        while i > 0
            invariant
                i <= self.properties@.len(),
                spec_lookup(self.spec_props(), name@) == spec_lookup(
                    self.spec_props().take(i as int),
                    name@,
                ),
            decreases i,
        {
            i = i - 1;
            proof {
                assert(self.spec_props().take(i + 1).last() == (
                    self.properties@[i as int].0@,
                    self.properties@[i as int].1@,
                ));
                assert(self.spec_props().take(i + 1).drop_last() =~= self.spec_props().take(
                    i as int,
                ));
            }
            if bytes_eq(&self.properties[i].0, name) {
                return Some(&self.properties[i].1);
            }
        }
        proof {
            assert(self.spec_props().take(0) =~= Seq::<(Seq<u8>, Seq<u8>)>::empty());
        }
        None
    }
}

/// Proves termination of the property parser: each parsed pair moves the
/// cursor strictly forward.
#[via_fn]
proof fn parse_props_decreases(s: Seq<u8>, pos: int) {
    lemma_find_byte(s, pos, 34);
    let q1 = spec_find_byte(s, pos, 34);
    if q1 != -1 {
        lemma_find_byte(s, q1 + 1, 34);
        let q2 = spec_find_byte(s, q1 + 1, 34);
        if q2 != -1 {
            lemma_find_byte(s, q2 + 1, 34);
            let q3 = spec_find_byte(s, q2 + 1, 34);
            if q3 != -1 {
                lemma_find_byte(s, q3 + 1, 34);
            }
        }
    }
}

/// Whether the two byte vectors hold the same bytes.
pub fn bytes_eq(a: &Vec<u8>, b: &Vec<u8>) -> (r: bool)
    ensures
        r == (a@ == b@),
{
    let na: usize = a.len();
    let nb: usize = b.len();
    if na != nb {
        return false;
    }
    let mut i: usize = 0;
    while i < na
        invariant
            i <= na,
            na == a@.len(),
            na == b@.len(),
            forall|k: int| 0 <= k < i ==> a@[k] == b@[k],
        decreases na - i,
    {
        if a[i] != b[i] {
            return false;
        }
        i = i + 1;
    }
    proof {
        assert(a@ =~= b@);
    }
    true
}

/// A fresh vector holding `data[from .. to]`.
pub fn copy_range(data: &Vec<u8>, from: usize, to: usize) -> (r: Vec<u8>)
    requires
        from <= to <= data@.len(),
    ensures
        r@ == data@.subrange(from as int, to as int),
{
    let mut r: Vec<u8> = Vec::new();
    let mut i: usize = from;
    while i < to
        invariant
            from <= i <= to,
            to <= data@.len(),
            r@ =~= data@.subrange(from as int, i as int),
        decreases to - i,
    {
        r.push(data[i]);
        assert(r@ =~= data@.subrange(from as int, i + 1));
        i = i + 1;
    }
    r
}

} // verus!
