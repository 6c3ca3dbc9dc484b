use vstd::prelude::*;
use vstd::utf8::*;
use crate::journal::Journal;
use crate::SdResult;

verus! {

/// The byte that parts a field's name from its data.
pub const DELIMITER: u8 = 61;

/// The error number with which the library reports that an entry has no such field.
pub const ENOENT: i32 = 2;

/// `i` is the first delimiter of the raw record `s`.
pub open spec fn is_first_delimiter(s: Seq<u8>, i: int) -> bool {
    &&& 0 <= i < s.len()
    &&& s[i] == DELIMITER
    &&& forall|j: int| 0 <= j < i ==> s[j] != DELIMITER
}

/// A raw record "NAME=value" read as its name and its data: the name is what
/// stands before the first delimiter, decoded as UTF-8, and the data all that
/// follows it. `None` where there is no delimiter or the name is not UTF-8.
pub open spec fn parse_record(s: Seq<u8>) -> Option<(Seq<char>, Seq<u8>)> {
    if exists|i: int| is_first_delimiter(s, i) {
        let i = choose|i: int| is_first_delimiter(s, i);
        if valid_utf8(s.subrange(0, i)) {
            Some((decode_utf8(s.subrange(0, i)), s.subrange(i + 1, s.len() as int)))
        } else {
            None
        }
    } else {
        None
    }
}

/// The raw record `s` is a field named `name`.
pub open spec fn record_named(s: Seq<u8>, name: Seq<char>) -> bool {
    parse_record(s) matches Some(p) && p.0 == name
}

/// One field of an entry: its name and its data.
#[derive(Clone, Debug, PartialEq, Eq)]
pub struct FieldData {
    pub name: String,
    pub data: Vec<u8>,
}

/// A field seen as a pair of name and data.
pub open spec fn field_pair(f: FieldData) -> (Seq<char>, Seq<u8>) {
    (f.name@, f.data@)
}

/// What a sequence of fields holds, name to data, where a later field of a
/// name replaces an earlier one.
pub open spec fn fields_map(s: Seq<(Seq<char>, Seq<u8>)>) -> Map<Seq<char>, Seq<u8>>
    decreases s.len(),
{
    if s.len() == 0 {
        Map::empty()
    } else {
        fields_map(s.drop_last()).insert(s.last().0, s.last().1)
    }
}

/// The fields of a list, as pairs.
pub open spec fn field_pairs(v: Seq<FieldData>) -> Seq<(Seq<char>, Seq<u8>)> {
    v.map_values(|f: FieldData| field_pair(f))
}

/// No two pairs share a name.
pub open spec fn unique_names(s: Seq<(Seq<char>, Seq<u8>)>) -> bool {
    forall|i: int, j: int| 0 <= i < s.len() && 0 <= j < s.len() && i != j ==> s[i].0 != s[j].0
}

/// Relies on std::str::from_utf8: it accepts exactly the valid UTF-8 byte
/// strings, and the text it returns is what they encode.
#[verifier::external_body]
fn decode_name(b: &[u8]) -> (r: Option<&str>)
    ensures
        r is Some <==> valid_utf8(b@),
        r matches Some(s) ==> s@ == decode_utf8(b@),
{
    std::str::from_utf8(b).ok()
}

impl FieldData {
    /// Reads a raw record "NAME=value". `None` where the record has no
    /// delimiter or its name is not UTF-8.
    pub fn from_raw(data: &[u8]) -> (r: Option<FieldData>)
        ensures
            match r {
                Some(f) => parse_record(data@) == Some(field_pair(f)),
                None => parse_record(data@) is None,
            },
    {
        let len = data.len();
        let mut i: usize = 0;
        while i < len && data[i] != DELIMITER
            invariant
                i <= len,
                len == data@.len(),
                forall|j: int| 0 <= j < i ==> data@[j] != DELIMITER,
            decreases len - i,
        {
            i = i + 1;
        }
        if i == len {
            proof {
                assert forall|k: int| !is_first_delimiter(data@, k) by {
                    if 0 <= k < data@.len() {
                        assert(data@[k] != DELIMITER);
                    }
                }
            }
            return None;
        }
        proof {
            assert(is_first_delimiter(data@, i as int));
            assert forall|k: int| is_first_delimiter(data@, k) implies k == i by {
                if k < i {
                    assert(data@[k] != DELIMITER);
                } else if k > i {
                    assert(data@[i as int] == DELIMITER);
                }
            }
        }
        let mut name_bytes: Vec<u8> = Vec::new();
        let mut j: usize = 0;
        while j < i
            invariant
                j <= i,
                i < len,
                len == data@.len(),
                name_bytes@ == data@.subrange(0, j as int),
            decreases i - j,
        {
            name_bytes.push(data[j]);
            j = j + 1;
            proof {
                assert(name_bytes@ =~= data@.subrange(0, j as int));
            }
        }
        let mut value: Vec<u8> = Vec::new();
        let mut k: usize = i + 1;
        while k < len
            invariant
                i < k <= len,
                len == data@.len(),
                value@ == data@.subrange(i + 1, k as int),
            decreases len - k,
        {
            value.push(data[k]);
            k = k + 1;
            proof {
                assert(value@ =~= data@.subrange(i + 1, k as int));
            }
        }
        match decode_name(name_bytes.as_slice()) {
            Some(name) => Some(FieldData { name: name.to_owned(), data: value }),
            None => None,
        }
    }

    /// The field as one that owns its name and data.
    pub fn into_owned(self) -> (r: FieldData)
        ensures
            field_pair(r) == field_pair(self),
    {
        self
    }
}

/// The entry under a journal's cursor.
pub struct Entry<'j> {
    pub(crate) journal: &'j Journal,
}

/// What one step of a field enumeration gives.
#[derive(Debug)]
pub enum FieldStep {
    /// The next field of the entry.
    Field(FieldData),
    /// The entry has no more fields.
    End,
    /// The library reported this negative status.
    Failed(i32),
    /// The library handed out a record that is no field.
    Malformed,
}

impl<'j> Entry<'j> {
    /// The journal whose cursor the entry stands under.
    pub closed spec fn spec_journal(&self) -> Journal {
        *self.journal
    }

    pub(crate) fn new(journal: &'j Journal) -> (r: Entry<'j>)
        ensures
            r.spec_journal() == *journal,
    {
        Entry { journal }
    }

    /// The field `name` of the entry, from the status `ret` of the lookup and
    /// the raw record `raw` that it gave. A record whose name is not the one
    /// asked for is corrupt data: the caller checks it before.
    pub fn field(&mut self, name: &str, ret: i32, raw: &[u8]) -> (r: SdResult<Option<FieldData>>)
        requires
            ret >= 0 ==> record_named(raw@, name@),
        ensures
            ret >= 0 ==> (r matches Ok(Some(f)) && parse_record(raw@) == Some(field_pair(f))
                && f.name@ == name@),
            ret == -ENOENT ==> r == Ok::<Option<FieldData>, i32>(None),
            ret < 0 && ret != -ENOENT ==> r == Err::<Option<FieldData>, i32>(ret),
            final(self).spec_journal() == old(self).spec_journal(),
    {
        if ret >= 0 {
            match FieldData::from_raw(raw) {
                Some(f) => Ok(Some(f)),
                None => {
                    proof {
                        assert(false);
                    }
                    Ok(None)
                },
            }
        } else if ret == -ENOENT {
            Ok(None)
        } else {
            Err(ret)
        }
    }

    /// Starts an enumeration of the entry's fields.
    pub fn fields<'e>(&'e mut self) -> (r: Fields<'e, 'j>)
        ensures
            !r.is_exhausted(),
    {
        Fields { entry: self, exhausted: false }
    }

    /// All fields of the entry, given as the enumeration handed them out, as
    /// one field per name: where a name comes twice, the later data wins.
    pub fn all_fields(&mut self, fields: Vec<FieldData>) -> (r: Vec<FieldData>)
        ensures
            unique_names(field_pairs(r@)),
            fields_map(field_pairs(r@)) == fields_map(field_pairs(fields@)),
            final(self).spec_journal() == old(self).spec_journal(),
    {
        merge_fields(fields)
    }
}

/// One field per name, where the later data of a name wins.
fn merge_fields(fields: Vec<FieldData>) -> (r: Vec<FieldData>)
    ensures
        unique_names(field_pairs(r@)),
        fields_map(field_pairs(r@)) == fields_map(field_pairs(fields@)),
{
    let ghost all = fields@;
    let mut rest = fields;
    let mut out: Vec<FieldData> = Vec::new();
    let n = rest.len();
    let mut i: usize = 0;
    while i < n
        invariant
            i <= n,
            n == all.len(),
            rest@ == all.subrange(i as int, n as int),
            unique_names(field_pairs(out@)),
            fields_map(field_pairs(out@)) == fields_map(field_pairs(all.subrange(0, i as int))),
        decreases n - i,
    {
        let f = rest.remove(0);
        proof {
            assert(f == all[i as int]);
            let pre = field_pairs(all.subrange(0, i as int + 1));
            assert(pre.drop_last() =~= field_pairs(all.subrange(0, i as int)));
            assert(pre.last() == field_pair(f));
        }
        let ghost before = out@;
        let m = out.len();
        let mut k: usize = 0;
        while k < m && out[k].name != f.name
            invariant
                k <= m,
                m == out@.len(),
                forall|j: int| 0 <= j < k ==> out@[j].name@ != f.name@,
            decreases m - k,
        {
            k = k + 1;
        }
        if k < m {
            out.set(k, f);
            proof {
                lemma_replace_field(field_pairs(before), k as int, field_pair(f));
                assert(field_pairs(out@) =~= field_pairs(before).update(k as int, field_pair(f)));
            }
        } else {
            out.push(f);
            proof {
                lemma_push_new_field(field_pairs(before), field_pair(f));
                assert(field_pairs(out@) =~= field_pairs(before).push(field_pair(f)));
            }
        }
        i = i + 1;
    }
    proof {
        assert(all.subrange(0, n as int) =~= all);
    }
    out
}

/// Under unique names, the map holds a key exactly where a pair has that
/// name, with that pair's data.
pub proof fn lemma_fields_map_unique(s: Seq<(Seq<char>, Seq<u8>)>)
    requires
        unique_names(s),
    ensures
        forall|k: Seq<char>|
            #[trigger] fields_map(s).contains_key(k) <==> exists|i: int| 0 <= i < s.len() && s[i].0 == k,
        forall|i: int| 0 <= i < s.len() ==> fields_map(s)[#[trigger] s[i].0] == s[i].1,
    decreases s.len(),
{
    if s.len() > 0 {
        let t = s.drop_last();
        assert(unique_names(t));
        lemma_fields_map_unique(t);
        let last = s.last();
        assert(fields_map(s) == fields_map(t).insert(last.0, last.1));
        assert forall|k: Seq<char>|
            #[trigger] fields_map(s).contains_key(k) <==> exists|i: int| 0 <= i < s.len() && s[i].0 == k by {
            if fields_map(s).contains_key(k) {
                if k == last.0 {
                    assert(s[s.len() - 1].0 == k);
                } else {
                    assert(fields_map(t).contains_key(k));
                    let i = choose|i: int| 0 <= i < t.len() && t[i].0 == k;
                    assert(t[i] == s[i]);
                    assert(s[i].0 == k);
                }
            }
            if exists|i: int| 0 <= i < s.len() && s[i].0 == k {
                let i = choose|i: int| 0 <= i < s.len() && s[i].0 == k;
                if i < t.len() {
                    assert(t[i] == s[i]);
                    assert(t[i].0 == k);
                    assert(fields_map(t).contains_key(k));
                }
            }
        }
        assert forall|i: int| 0 <= i < s.len() implies fields_map(s)[#[trigger] s[i].0] == s[i].1 by {
            if i < t.len() {
                assert(t[i] == s[i]);
                assert(s[i].0 != last.0);
            }
        }
    }
}

/// Two enumerations of an entry's fields that hand out the same pairs, in
/// whatever order, give the same fields by name: the map does not depend on
/// the order of enumeration.
pub proof fn lemma_fields_order_free(a: Seq<(Seq<char>, Seq<u8>)>, b: Seq<(Seq<char>, Seq<u8>)>)
    requires
        unique_names(a),
        unique_names(b),
        a.to_set() == b.to_set(),
    ensures
        fields_map(a) == fields_map(b),
{
    lemma_fields_map_unique(a);
    lemma_fields_map_unique(b);
    assert forall|k: Seq<char>| #[trigger] fields_map(a).contains_key(k) implies fields_map(b).contains_key(k)
        && fields_map(a)[k] == fields_map(b)[k] by {
        let i = choose|i: int| 0 <= i < a.len() && a[i].0 == k;
        assert(a.to_set().contains(a[i]));
        assert(b.to_set().contains(a[i]));
        let j = choose|j: int| 0 <= j < b.len() && b[j] == a[i];
        assert(fields_map(a)[a[i].0] == a[i].1);
        assert(fields_map(b)[b[j].0] == b[j].1);
    }
    assert forall|k: Seq<char>| #[trigger] fields_map(b).contains_key(k) implies fields_map(a).contains_key(k) by {
        let j = choose|j: int| 0 <= j < b.len() && b[j].0 == k;
        assert(b.to_set().contains(b[j]));
        assert(a.to_set().contains(b[j]));
        let i = choose|i: int| 0 <= i < a.len() && a[i] == b[j];
        assert(a[i].0 == k);
    }
    assert(fields_map(a) =~= fields_map(b));
}

/// Replacing the data of a name keeps the names unique and updates the map.
proof fn lemma_replace_field(s: Seq<(Seq<char>, Seq<u8>)>, k: int, p: (Seq<char>, Seq<u8>))
    requires
        unique_names(s),
        0 <= k < s.len(),
        s[k].0 == p.0,
    ensures
        unique_names(s.update(k, p)),
        fields_map(s.update(k, p)) == fields_map(s).insert(p.0, p.1),
{
    let u = s.update(k, p);
    assert(unique_names(u)) by {
        assert forall|i: int, j: int| 0 <= i < u.len() && 0 <= j < u.len() && i != j implies u[i].0 != u[j].0 by {
            assert(s[i].0 != s[j].0);
        }
    }
    let w = s.push(p);
    lemma_fields_map_unique(s);
    lemma_fields_map_unique(u);
    assert(fields_map(w) == fields_map(s).insert(p.0, p.1)) by {
        assert(w.drop_last() =~= s);
    }
    assert forall|key: Seq<char>| fields_map(u).contains_key(key) == fields_map(w).contains_key(key) by {
        assert(w.drop_last() =~= s);
        if exists|i: int| 0 <= i < s.len() && s[i].0 == key {
            let i = choose|i: int| 0 <= i < s.len() && s[i].0 == key;
            assert(u[i].0 == key);
        }
        if exists|i: int| 0 <= i < u.len() && u[i].0 == key {
            let i = choose|i: int| 0 <= i < u.len() && u[i].0 == key;
            if i != k {
                assert(s[i].0 == key);
            }
        }
    }
    assert forall|key: Seq<char>| fields_map(u).contains_key(key) implies fields_map(u)[key] == fields_map(w)[key] by {
        assert(w.drop_last() =~= s);
        let i = choose|i: int| 0 <= i < u.len() && u[i].0 == key;
        assert(fields_map(u)[u[i].0] == u[i].1);
        if i != k {
            assert(s[i] == u[i]);
            assert(fields_map(s)[s[i].0] == s[i].1);
        }
    }
    assert(fields_map(u) =~= fields_map(w));
}

/// Adding a pair of a new name keeps the names unique.
proof fn lemma_push_new_field(s: Seq<(Seq<char>, Seq<u8>)>, p: (Seq<char>, Seq<u8>))
    requires
        unique_names(s),
        forall|j: int| 0 <= j < s.len() ==> s[j].0 != p.0,
    ensures
        unique_names(s.push(p)),
        fields_map(s.push(p)) == fields_map(s).insert(p.0, p.1),
{
    let w = s.push(p);
    assert(w.drop_last() =~= s);
    assert forall|i: int, j: int| 0 <= i < w.len() && 0 <= j < w.len() && i != j implies w[i].0 != w[j].0 by {
        if i < s.len() && j < s.len() {
            assert(s[i].0 != s[j].0);
        } else if i < s.len() {
            assert(s[i].0 != p.0);
        } else if j < s.len() {
            assert(s[j].0 != p.0);
        }
    }
}

/// An enumeration of the fields of an entry, which is either under way or
/// has reached the end of the fields.
pub struct Fields<'e, 'j> {
    entry: &'e Entry<'j>,
    exhausted: bool,
}

impl<'e, 'j> Fields<'e, 'j> {
    pub closed spec fn is_exhausted(&self) -> bool {
        self.exhausted
    }

    pub fn exhausted(&self) -> (r: bool)
        ensures
            r == self.is_exhausted(),
    {
        self.exhausted
    }

    /// One step, from the status `ret` of the enumeration call and the raw
    /// record `raw` that it gave. Once the end is reached it stays reached.
    pub fn next(&mut self, ret: i32, raw: &[u8]) -> (r: FieldStep)
        ensures
            old(self).is_exhausted() ==> (r is End && final(self).is_exhausted()),
            !old(self).is_exhausted() ==> {
                &&& ret == 0 ==> r is End
                &&& ret < 0 ==> r == FieldStep::Failed(ret)
                &&& ret > 0 ==> match parse_record(raw@) {
                    Some(p) => r matches FieldStep::Field(f) && field_pair(f) == p,
                    None => r is Malformed,
                }
                &&& final(self).is_exhausted() == (ret == 0)
            },
    {
        if self.exhausted {
            return FieldStep::End;
        }
        if ret == 0 {
            self.exhausted = true;
            FieldStep::End
        } else if ret < 0 {
            FieldStep::Failed(ret)
        } else {
            match FieldData::from_raw(raw) {
                Some(f) => FieldStep::Field(f),
                None => FieldStep::Malformed,
            }
        }
    }
}

/// No byte of a character's encoding is the delimiter, unless the character
/// is '=' itself.
proof fn lemma_scalar_not_delimiter(c: char)
    requires
        c != '=',
    ensures
        forall|j: int| 0 <= j < encode_scalar(c as u32).len() ==> #[trigger] encode_scalar(c as u32)[j] != DELIMITER,
{
    let v = c as u32;
    char_is_scalar(c);
    if has_width_1_encoding(v) {
        assert(v != 61) by {
            if v == 61 {
                char_u32_cast(c, v);
                assert(c == '=');
            }
        }
        assert(v <= 0x7f && v != 61 ==> ((v & 0x7f) as u8) != 61u8) by (bit_vector);
    } else {
        assert((0xC0u8 | (((v >> 6u32) & 0x1Fu32) as u8)) != 61u8) by (bit_vector);
        assert((0xE0u8 | (((v >> 12u32) & 0x0Fu32) as u8)) != 61u8) by (bit_vector);
        assert((0xF0u8 | (((v >> 18u32) & 0x7u32) as u8)) != 61u8) by (bit_vector);
        assert((0x80u8 | ((v & 0x3Fu32) as u8)) != 61u8) by (bit_vector);
        assert((0x80u8 | (((v >> 6u32) & 0x3Fu32) as u8)) != 61u8) by (bit_vector);
        assert((0x80u8 | (((v >> 12u32) & 0x3Fu32) as u8)) != 61u8) by (bit_vector);
    }
}

/// A text without '=' encodes to bytes without the delimiter.
proof fn lemma_encode_not_delimiter(name: Seq<char>)
    requires
        forall|i: int| 0 <= i < name.len() ==> name[i] != '=',
    ensures
        forall|j: int| 0 <= j < encode_utf8(name).len() ==> #[trigger] encode_utf8(name)[j] != DELIMITER,
    decreases name.len(),
{
    if name.len() > 0 {
        let head = encode_scalar(name[0] as u32);
        let rest = encode_utf8(name.drop_first());
        lemma_scalar_not_delimiter(name[0]);
        lemma_encode_not_delimiter(name.drop_first());
        assert(encode_utf8(name) == head + rest);
        assert forall|j: int| 0 <= j < encode_utf8(name).len() implies #[trigger] encode_utf8(name)[j] != DELIMITER by {
            if j < head.len() {
                assert(encode_utf8(name)[j] == head[j]);
            } else {
                assert(encode_utf8(name)[j] == rest[j - head.len()]);
            }
        }
    }
}

/// A field written as its name, the delimiter and its data reads back as
/// that same name and data, whatever the data holds, for every name
/// without '='.
pub proof fn lemma_record_round_trip(name: Seq<char>, data: Seq<u8>)
    requires
        forall|i: int| 0 <= i < name.len() ==> name[i] != '=',
    ensures
        parse_record(encode_utf8(name) + seq![DELIMITER] + data) == Some((name, data)),
{
    let enc = encode_utf8(name);
    let s = enc + seq![DELIMITER] + data;
    let n = enc.len() as int;
    lemma_encode_not_delimiter(name);
    assert(s[n] == DELIMITER);
    assert forall|j: int| 0 <= j < n implies s[j] != DELIMITER by {
        assert(s[j] == enc[j]);
    }
    assert(is_first_delimiter(s, n));
    assert forall|k: int| is_first_delimiter(s, k) implies k == n by {
        if k < n {
            assert(s[k] == enc[k]);
        } else if k > n {
            assert(s[n] == DELIMITER);
        }
    }
    assert(s.subrange(0, n) =~= enc);
    assert(s.subrange(n + 1, s.len() as int) =~= data);
    encode_utf8_valid_utf8(name);
    encode_utf8_decode_utf8(name);
}

} // verus!
