//! User data headers, as used to mark the parts of a concatenated SMS.
use vstd::prelude::*;
use crate::errors::{HuaweiError, HuaweiResult};

verus! {

use vstd::slice::slice_subrange;
use vstd::slice::slice_to_vec;

/// One information element of a user data header.
#[derive(Debug, Clone, PartialEq, Eq)]
pub struct UdhComponent {
    /// Information element identifier.
    pub id: u8,
    /// Information element data.
    pub data: Vec<u8>,
}

/// A user data header: a list of information elements.
#[derive(Debug, Clone, PartialEq, Eq)]
pub struct UserDataHeader {
    pub components: Vec<UdhComponent>,
}

/// What a concatenation element says of the part that carries it.
#[derive(Debug, Clone, Copy, PartialEq, Eq, Structural)]
pub struct ConcatenatedSmsData {
    /// The reference shared by all parts of one message.
    pub reference: u16,
    /// How many parts the message has.
    pub parts: u8,
    /// Which part this is, from 1.
    pub sequence: u8,
}

/// The concatenation data held by one element: identifier 0 with three data
/// octets (8-bit reference), or identifier 8 with four (16-bit reference).
pub open spec fn spec_concat_of(id: u8, d: Seq<u8>) -> Option<ConcatenatedSmsData> {
    if id == 0 && d.len() == 3 {
        Some(ConcatenatedSmsData { reference: d[0] as u16, parts: d[1], sequence: d[2] })
    } else if id == 8 && d.len() == 4 {
        Some(ConcatenatedSmsData { reference: (d[0] * 256 + d[1]) as u16, parts: d[2], sequence: d[3] })
    } else {
        None
    }
}

/// The concatenation data of the first element of `cs` that holds any.
pub open spec fn spec_first_concat(cs: Seq<UdhComponent>) -> Option<ConcatenatedSmsData>
    decreases cs.len(),
{
    if cs.len() == 0 {
        None
    } else if spec_concat_of(cs[0].id, cs[0].data@) is Some {
        spec_concat_of(cs[0].id, cs[0].data@)
    } else {
        spec_first_concat(cs.drop_first())
    }
}

/// The octets of the elements `cs`: identifier, length, data, for each.
pub open spec fn spec_components_bytes(cs: Seq<UdhComponent>) -> Seq<u8>
    decreases cs.len(),
{
    if cs.len() == 0 {
        Seq::empty()
    } else {
        spec_components_bytes(cs.drop_last()) + seq![cs.last().id, cs.last().data@.len() as u8]
            + cs.last().data@
    }
}

/// The elements read from `b` (a header without its length octet), as
/// identifier and data; `None` where an element runs past the end.
pub open spec fn spec_parse_components(b: Seq<u8>) -> Option<Seq<(u8, Seq<u8>)>>
    decreases b.len(),
{
    if b.len() == 0 {
        Some(Seq::empty())
    } else if b.len() < 2 || b.len() < 2 + b[1] {
        None
    } else {
        match spec_parse_components(b.subrange(2 + b[1], b.len() as int)) {
            Some(rest) => Some(seq![(b[0], b.subrange(2, 2 + b[1]))] + rest),
            None => None,
        }
    }
}

impl UserDataHeader {
    /// The concatenation data of the first element that holds any.
    pub fn get_concatenated_sms_data(&self) -> (r: Option<ConcatenatedSmsData>)
        ensures
            r == spec_first_concat(self.components@),
    {
        let mut i: usize = 0;
        assert(self.components@.subrange(0, self.components@.len() as int) == self.components@);
        while i < self.components.len()
            invariant
                i <= self.components@.len(),
                spec_first_concat(self.components@.subrange(i as int, self.components@.len() as int))
                    == spec_first_concat(self.components@),
            decreases self.components@.len() - i,
        {
            let comp = &self.components[i];
            let ghost rest = self.components@.subrange(i as int, self.components@.len() as int);
            assert(rest[0] == *comp);
            if comp.id == 0 && comp.data.len() == 3 {
                return Some(ConcatenatedSmsData { reference: comp.data[0] as u16, parts: comp.data[1], sequence: comp.data[2] });
            }
            if comp.id == 8 && comp.data.len() == 4 {
                let reference = (comp.data[0] as u16) * 256 + (comp.data[1] as u16);
                return Some(ConcatenatedSmsData { reference, parts: comp.data[2], sequence: comp.data[3] });
            }
            assert(rest.drop_first() == self.components@.subrange(i + 1, self.components@.len() as int));
            i += 1;
        }
        None
    }

    /// The header as sent: a length octet, then the elements.
    pub open spec fn spec_bytes(self) -> Seq<u8> {
        seq![spec_components_bytes(self.components@).len() as u8] + spec_components_bytes(self.components@)
    }

    pub fn as_bytes(&self) -> (r: Vec<u8>)
        ensures
            r@ == self.spec_bytes(),
    {
        let mut ret: Vec<u8> = Vec::new();
        let mut i: usize = 0;
        while i < self.components.len()
            invariant
                i <= self.components@.len(),
                ret@ == spec_components_bytes(self.components@.subrange(0, i as int)),
            decreases self.components@.len() - i,
        {
            let comp = &self.components[i];
            ret.push(comp.id);
            ret.push(comp.data.len() as u8);
            let mut data = slice_to_vec(comp.data.as_slice());
            ret.append(&mut data);
            assert(self.components@.subrange(0, i + 1).drop_last() == self.components@.subrange(0, i as int));
            assert(ret@ =~= spec_components_bytes(self.components@.subrange(0, i + 1)));
            i += 1;
        }
        assert(self.components@.subrange(0, self.components@.len() as int) == self.components@);
        let len = ret.len() as u8;
        ret.insert(0, len);
        assert(ret@ =~= self.spec_bytes());
        ret
    }

    /// Reads a header given without its length octet.
    pub fn try_from(b: &[u8]) -> (r: HuaweiResult<UserDataHeader>)
        ensures
            r is Ok <==> spec_parse_components(b@) is Some,
            r matches Err(e) ==> e matches HuaweiError::InvalidPdu(_),
            r matches Ok(h) ==> {
                let p = spec_parse_components(b@)->0;
                &&& h.components@.len() == p.len()
                &&& forall|i: int| 0 <= i < p.len() ==> (#[trigger] h.components@[i]).id == p[i].0
                    && h.components@[i].data@ == p[i].1
            },
    {
        let mut offset: usize = 0;
        let mut ret: Vec<UdhComponent> = Vec::new();
        let ghost mut acc: Seq<(u8, Seq<u8>)> = Seq::empty();
        assert(b@.subrange(0, b@.len() as int) == b@);
        proof {
            match spec_parse_components(b@) {
                Some(p) => { assert(acc + p =~= p); },
                None => {},
            }
        }
        while offset < b.len()
            invariant
                offset <= b@.len(),
                spec_parse_components(b@) == match spec_parse_components(b@.subrange(offset as int, b@.len() as int)) {
                    Some(rest) => Some(acc + rest),
                    None => None::<Seq<(u8, Seq<u8>)>>,
                },
                ret@.len() == acc.len(),
                forall|i: int| 0 <= i < acc.len() ==> (#[trigger] ret@[i]).id == acc[i].0 && ret@[i].data@ == acc[i].1,
            decreases b@.len() - offset,
        {
            let ghost rest = b@.subrange(offset as int, b@.len() as int);
            let id = b[offset];
            if offset + 1 >= b.len() {
                return Err(HuaweiError::InvalidPdu("Offset check failed for: UDH component length"));
            }
            let len = b[offset + 1] as usize;
            if len > b.len() - (offset + 2) {
                return Err(HuaweiError::InvalidPdu("Offset check failed for: UDH component data"));
            }
            let end = offset + 2 + len;
            let data = slice_to_vec(slice_subrange(b, offset + 2, end));
            assert(rest.subrange(2 + rest[1], rest.len() as int) == b@.subrange(end as int, b@.len() as int));
            assert(rest.subrange(2, 2 + rest[1]) == data@);
            proof {
                let item = (id, data@);
                match spec_parse_components(b@.subrange(end as int, b@.len() as int)) {
                    Some(r2) => {
                        assert(acc + (seq![item] + r2) =~= acc.push(item) + r2);
                    },
                    None => {},
                }
                acc = acc.push(item);
            }
            ret.push(UdhComponent { id, data });
            offset = end;
        }
        assert(b@.subrange(offset as int, b@.len() as int) =~= Seq::<u8>::empty());
        assert(acc + Seq::<(u8, Seq<u8>)>::empty() =~= acc);
        Ok(UserDataHeader { components: ret })
    }
}

} // verus!
