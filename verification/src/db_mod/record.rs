use vstd::prelude::*;
use crate::pager_mod::pager::{lemma_varint_len_shape, spec_decode_varint, try_decode_varint_at};
use crate::parser_mod::text::strings_view;

verus! {

/// The number of bytes that a value of serial type `serial` occupies in a
/// record: NULL, integers of 1, 2, 3, 4, 6 and 8 bytes, a float of 8, the
/// constants 0 and 1, and blobs (even types from 12) and texts (odd types
/// from 13) of `(serial - 12) / 2` and `(serial - 13) / 2` bytes. Types 10
/// and 11 are reserved and have no size.
pub open spec fn serial_size(serial: u64) -> u64
    recommends
        serial != 10 && serial != 11,
{
    if serial >= 12 && serial % 2 == 0 {
        ((serial - 12) / 2) as u64
    } else if serial >= 13 && serial % 2 == 1 {
        ((serial - 13) / 2) as u64
    } else if serial <= 4 {
        serial
    } else if serial == 5 {
        6
    } else if serial == 6 || serial == 7 {
        8
    } else {
        0
    }
}

/// How long a value of each serial type is: a blob of `n` bytes has serial
/// type `2n + 12` and a text of `n` bytes type `2n + 13`; NULL and the
/// constants 0 and 1 (types 0, 8 and 9) take no bytes; the integer types 1
/// to 6 take 1, 2, 3, 4, 6 and 8 bytes, and a float (type 7) takes 8.
pub proof fn lemma_serial_sizes(n: u64)
    ensures
        2 * n + 12 <= u64::MAX ==> serial_size((2 * n + 12) as u64) == n,
        2 * n + 13 <= u64::MAX ==> serial_size((2 * n + 13) as u64) == n,
        serial_size(0) == 0 && serial_size(8) == 0 && serial_size(9) == 0,
        serial_size(1) == 1 && serial_size(2) == 2 && serial_size(3) == 3 && serial_size(4) == 4,
        serial_size(5) == 6 && serial_size(6) == 8 && serial_size(7) == 8,
{
}

/// The size in bytes of a value of serial type `serial`.
pub fn find_size(serial: u64) -> (res: u64)
    requires
        serial != 10 && serial != 11,
    ensures
        res == serial_size(serial),
{
    if serial >= 12 && serial % 2 == 0 {
        return (serial - 12) / 2;
    }
    if serial >= 13 && serial % 2 != 0 {
        return (serial - 13) / 2;
    }
    match serial {
        0 => 0,
        1 => 1,
        2 => 2,
        3 => 3,
        4 => 4,
        5 => 6,
        6 => 8,
        7 => 8,
        _ => 0,
    }
}

/// The varint that starts at `pos` in `payload`.
pub open spec fn varint_at(payload: Seq<u8>, pos: int) -> Option<(u64, nat)> {
    if 0 <= pos <= payload.len() {
        spec_decode_varint(payload.skip(pos))
    } else {
        None
    }
}

/// The serial types of the first `k` columns of a record, read as varints
/// from `start` on, and where they end.
pub open spec fn record_serials(payload: Seq<u8>, start: int, k: nat) -> Option<(Seq<u64>, int)>
    decreases k,
{
    if k == 0 {
        Some((Seq::empty(), start))
    } else {
        match record_serials(payload, start, (k - 1) as nat) {
            None => None,
            Some((serials, pos)) => match varint_at(payload, pos) {
                None => None,
                Some((serial, n)) => Some((serials.push(serial), pos + n)),
            },
        }
    }
}

/// The index of the last column named `name` among `names` (`-1` if none).
pub open spec fn last_index_of(names: Seq<Seq<char>>, name: Seq<char>) -> int
    decreases names.len(),
{
    if names.len() == 0 {
        -1
    } else if names.last() == name {
        names.len() - 1
    } else {
        last_index_of(names.drop_last(), name)
    }
}

/// The size of the value read for column `i`: that of the serial type of
/// the last column with the same name (the sizes are kept by column name,
/// so a later column of that name decides it).
pub open spec fn column_size(names: Seq<Seq<char>>, serials: Seq<u64>, i: int) -> nat {
    serial_size(serials[last_index_of(names, names[i])]) as nat
}

/// The values of the first `k` columns, read one after the other from
/// `start` on, and where they end; `None` when one runs past the payload.
pub open spec fn record_values(payload: Seq<u8>, names: Seq<Seq<char>>, serials: Seq<u64>, start: int, k: nat)
    -> Option<(Seq<Seq<u8>>, int)>
    decreases k,
{
    if k == 0 {
        Some((Seq::empty(), start))
    } else {
        match record_values(payload, names, serials, start, (k - 1) as nat) {
            None => None,
            Some((values, pos)) => {
                let size = column_size(names, serials, k - 1);
                if pos + size <= payload.len() {
                    Some((values.push(payload.subrange(pos, pos + size)), pos + size))
                } else {
                    None
                }
            },
        }
    }
}

/// Whether none of `serials` is a reserved type.
pub open spec fn no_reserved_serial(serials: Seq<u64>) -> bool {
    forall|i: int| 0 <= i < serials.len() ==> serials[i] != 10 && serials[i] != 11
}

/// The row that a record holds for columns `names`: the record opens with
/// a varint (the header's size, which is not used), then one varint serial
/// type per column, then the columns' values in order. `None` when a varint
/// is missing, a serial type is reserved, or a value runs past the payload.
pub open spec fn spec_decode_record(payload: Seq<u8>, names: Seq<Seq<char>>) -> Option<Seq<(Seq<char>, Seq<u8>)>> {
    match varint_at(payload, 0) {
        None => None,
        Some((header_size, n0)) => match record_serials(payload, n0 as int, names.len()) {
            None => None,
            Some((serials, data_start)) => if no_reserved_serial(serials) {
                match record_values(payload, names, serials, data_start, names.len()) {
                    None => None,
                    Some((values, end)) => Some(Seq::new(names.len(), |i: int| (names[i], values[i]))),
                }
            } else {
                None
            },
        },
    }
}

/// The value of the last entry named `name`, if any: a row answers as a map
/// from column names to values that later entries overwrite.
pub open spec fn row_lookup(entries: Seq<(Seq<char>, Seq<u8>)>, name: Seq<char>) -> Option<Seq<u8>>
    decreases entries.len(),
{
    if entries.len() == 0 {
        None
    } else if entries.last().0 == name {
        Some(entries.last().1)
    } else {
        row_lookup(entries.drop_last(), name)
    }
}

/// The value found for a column of a row is that of the last pair with that key:
/// there is none exactly when no pair has the key, and otherwise some
/// pair holds the key with that value and no later pair holds the key.
pub proof fn lemma_row_lookup_last_entry(pairs: Seq<(Seq<char>, Seq<u8>)>, key: Seq<char>)
    ensures
        row_lookup(pairs, key) is None <==> forall|j: int| 0 <= j < pairs.len() ==> (#[trigger] pairs[j]).0 != key,
        row_lookup(pairs, key) matches Some(v) ==> exists|i: int|
            0 <= i < pairs.len() && pairs[i] == (key, v) && forall|j: int| i < j < pairs.len() ==> (#[trigger] pairs[j]).0 != key,
    decreases pairs.len(),
{
    if pairs.len() > 0 {
        let prev = pairs.drop_last();
        lemma_row_lookup_last_entry(prev, key);
        assert forall|j: int| 0 <= j < prev.len() implies prev[j] == pairs[j] by {}
        assert(pairs[pairs.len() - 1] == pairs.last());
        if pairs.last().0 != key {
            if let Some(v) = row_lookup(pairs, key) {
                let i = choose|i: int|
                    0 <= i < prev.len() && prev[i] == (key, v) && forall|j: int| i < j < prev.len() ==> (#[trigger] prev[j]).0 != key;
                assert(pairs[i] == (key, v));
                assert forall|j: int| i < j < pairs.len() implies (#[trigger] pairs[j]).0 != key by {
                    if j < prev.len() {
                        assert(prev[j] == pairs[j]);
                    }
                }
            } else {
                assert forall|j: int| 0 <= j < pairs.len() implies (#[trigger] pairs[j]).0 != key by {
                    if j < prev.len() {
                        assert(prev[j] == pairs[j]);
                    }
                }
            }
        }
    }
}

proof fn lemma_record_serials_none_stays(payload: Seq<u8>, start: int, k: nat, m: nat)
    requires
        k <= m,
        record_serials(payload, start, k) is None,
    ensures
        record_serials(payload, start, m) is None,
    decreases m - k,
{
    if k < m {
        lemma_record_serials_none_stays(payload, start, k, (m - 1) as nat);
    }
}

proof fn lemma_record_values_none_stays(
    payload: Seq<u8>,
    names: Seq<Seq<char>>,
    serials: Seq<u64>,
    start: int,
    k: nat,
    m: nat,
)
    requires
        k <= m,
        record_values(payload, names, serials, start, k) is None,
    ensures
        record_values(payload, names, serials, start, m) is None,
    decreases m - k,
{
    if k < m {
        lemma_record_values_none_stays(payload, names, serials, start, k, (m - 1) as nat);
    }
}

proof fn lemma_record_serials_shape(payload: Seq<u8>, start: int, k: nat)
    requires
        0 <= start,
    ensures
        record_serials(payload, start, k) matches Some((serials, end)) ==> serials.len() == k && start <= end
            <= payload.len() || (k == 0 && end == start),
    decreases k,
{
    if k > 0 {
        lemma_record_serials_shape(payload, start, (k - 1) as nat);
        if let Some((serials, pos)) = record_serials(payload, start, (k - 1) as nat) {
            if 0 <= pos <= payload.len() {
                crate::pager_mod::pager::lemma_varint_len_shape(payload.skip(pos));
            }
        }
    }
}

/// The last column named like column `i` is column `i` or a later one.
proof fn lemma_last_index_of_bounds(names: Seq<Seq<char>>, i: int)
    requires
        0 <= i < names.len(),
    ensures
        i <= last_index_of(names, names[i]) < names.len(),
        names[last_index_of(names, names[i])] == names[i],
    decreases names.len(),
{
    if names.last() != names[i] {
        assert(i < names.len() - 1);
        assert(names.drop_last()[i] == names[i]);
        lemma_last_index_of_bounds(names.drop_last(), i);
    }
}

/// The index of the last column whose name is that of column `i`.
fn last_index(names: &Vec<String>, i: usize) -> (res: usize)
    requires
        i < names@.len(),
    ensures
        res as int == last_index_of(strings_view(names@), strings_view(names@)[i as int]),
{
    let ghost view = strings_view(names@);
    let ghost name = view[i as int];
    proof {
        lemma_last_index_of_bounds(view, i as int);
    }
    let mut j: usize = names.len();
    assert(view.take(j as int) =~= view);
    while j > i + 1
        invariant
            i < j <= names@.len(),
            view == strings_view(names@),
            name == view[i as int],
            last_index_of(view, name) == last_index_of(view.take(j as int), name),
        decreases j,
    {
        assert(view.take(j as int).drop_last() =~= view.take(j - 1));
        if names[j - 1] == names[i] {
            return j - 1;
        }
        j = j - 1;
    }
    assert(view.take(j as int).last() == name);
    i
}

/// The views of the entries of a row.
pub open spec fn entries_view(entries: Seq<(String, Vec<u8>)>) -> Seq<(Seq<char>, Seq<u8>)> {
    entries.map_values(|e: (String, Vec<u8>)| (e.0@, e.1@))
}

/// Reads the row that a record holds for the columns `columns`, or `None`
/// when it cannot be read (see `spec_decode_record`).
#[verifier::loop_isolation(false)]
pub fn decode_record(payload: &[u8], columns: &Vec<String>) -> (res: Option<Row>)
    ensures
        match res {
            Some(row) => spec_decode_record(payload@, strings_view(columns@)) == Some(row@),
            None => spec_decode_record(payload@, strings_view(columns@)) is None,
        },
{
    let ghost names = strings_view(columns@);
    let (_header_size, n0) = match try_decode_varint_at(payload, 0) {
        Some(d) => d,
        None => return None,
    };
    let mut serials: Vec<u64> = Vec::new();
    let mut pos: usize = n0;
    let mut k: usize = 0;
    while k < columns.len()
        invariant
            k <= columns@.len(),
            names == strings_view(columns@),
            varint_at(payload@, 0) matches Some((h, n)) && n == n0,
            record_serials(payload@, n0 as int, k as nat) == Some((serials@, pos as int)),
            pos <= payload@.len(),
        decreases columns.len() - k,
    {
        let (serial, n) = match try_decode_varint_at(payload, pos) {
            Some(d) => d,
            None => {
                proof {
                    lemma_record_serials_none_stays(payload@, n0 as int, (k + 1) as nat, columns@.len());
                }
                return None;
            },
        };
        serials.push(serial);
        assert(payload@.len() == payload.len());
        pos = pos + n;
        k = k + 1;
    }
    let ghost data_start = pos as int;
    let mut k: usize = 0;
    while k < serials.len()
        invariant
            k <= serials@.len(),
            forall|j: int| 0 <= j < k ==> serials@[j] != 10 && serials@[j] != 11,
        decreases serials.len() - k,
    {
        if serials[k] == 10 || serials[k] == 11 {
            return None;
        }
        k = k + 1;
    }
    proof {
        lemma_record_serials_shape(payload@, n0 as int, names.len());
    }
    let mut entries: Vec<(String, Vec<u8>)> = Vec::new();
    let ghost mut values: Seq<Seq<u8>> = Seq::empty();
    let mut k: usize = 0;
    assert(entries_view(entries@) =~= Seq::new(0, |i: int| (names[i], values[i])));
    while k < columns.len()
        invariant
            k <= columns@.len(),
            names == strings_view(columns@),
            serials@.len() == columns@.len(),
            no_reserved_serial(serials@),
            pos <= payload@.len(),
            record_values(payload@, names, serials@, data_start, k as nat) == Some((values, pos as int)),
            values.len() == k,
            entries_view(entries@) =~= Seq::new(k as nat, |i: int| (names[i], values[i])),
        decreases columns.len() - k,
    {
        let j = last_index(columns, k);
        proof {
            lemma_last_index_of_bounds(names, k as int);
        }
        let size = find_size(serials[j]);
        if size > (payload.len() - pos) as u64 {
            proof {
                lemma_record_values_none_stays(payload@, names, serials@, data_start, (k + 1) as nat, names.len());
            }
            return None;
        }
        let end = pos + size as usize;
        let value = vstd::slice::slice_to_vec(vstd::slice::slice_subrange(payload, pos, end));
        let name = columns[k].clone();
        let ghost old_entries = entries@;
        entries.push((name, value));
        proof {
            values = values.push(value@);
            assert(entries_view(entries@) =~= entries_view(old_entries).push((name@, value@)));
        }
        pos = end;
        k = k + 1;
    }
    Some(Row { entries })
}

proof fn lemma_row_lookup_last(entries: Seq<(Seq<char>, Seq<u8>)>, names: Seq<Seq<char>>, name: Seq<char>)
    requires
        entries.len() == names.len(),
        forall|i: int| 0 <= i < entries.len() ==> entries[i].0 == names[i],
    ensures
        last_index_of(names, name) >= 0 ==> row_lookup(entries, name) == Some(entries[last_index_of(names, name)].1),
        last_index_of(names, name) < 0 ==> row_lookup(entries, name) is None,
        -1 <= last_index_of(names, name) < names.len(),
    decreases entries.len(),
{
    if entries.len() > 0 && entries.last().0 != name {
        lemma_row_lookup_last(entries.drop_last(), names.drop_last(), name);
    }
}

/// A record read for a list of columns gives one entry per column, in the
/// columns' order and under their names, and answers for a column name with
/// the value of the last column of that name (the value that a map keyed by
/// column name keeps); for a name that is not a column it has no value.
pub proof fn lemma_decoded_row_columns(payload: Seq<u8>, names: Seq<Seq<char>>, name: Seq<char>)
    ensures
        spec_decode_record(payload, names) matches Some(row) ==> {
            &&& row.len() == names.len()
            &&& forall|i: int| 0 <= i < row.len() ==> #[trigger] row[i].0 == names[i]
            &&& last_index_of(names, name) >= 0 ==> row_lookup(row, name) == Some(row[last_index_of(names, name)].1)
            &&& last_index_of(names, name) < 0 ==> row_lookup(row, name) is None
        },
{
    if let Some(row) = spec_decode_record(payload, names) {
        lemma_row_lookup_last(row, names, name);
    }
}

proof fn lemma_record_serials_bounds(payload: Seq<u8>, start: int, k: nat)
    requires
        0 <= start <= payload.len(),
    ensures
        record_serials(payload, start, k) matches Some((serials, end)) ==> serials.len() == k && start <= end
            <= payload.len(),
    decreases k,
{
    if k > 0 {
        lemma_record_serials_bounds(payload, start, (k - 1) as nat);
        if let Some((serials, pos)) = record_serials(payload, start, (k - 1) as nat) {
            lemma_varint_len_shape(payload.skip(pos));
        }
    }
}

proof fn lemma_record_values_tile(payload: Seq<u8>, names: Seq<Seq<char>>, serials: Seq<u64>, start: int, k: nat)
    requires
        0 <= start <= payload.len(),
    ensures
        record_values(payload, names, serials, start, k) matches Some((values, end)) ==> {
            &&& values.len() == k
            &&& start <= end <= payload.len()
            &&& values.flatten() == payload.subrange(start, end)
            &&& forall|i: int| 0 <= i < k ==> (#[trigger] values[i]).len() == column_size(names, serials, i)
        },
    decreases k,
{
    if k == 0 {
        assert(payload.subrange(start, start) =~= Seq::<u8>::empty());
    } else {
        lemma_record_values_tile(payload, names, serials, start, (k - 1) as nat);
        if let Some((values, end)) = record_values(payload, names, serials, start, k) {
            let (prev, pos) = record_values(payload, names, serials, start, (k - 1) as nat).unwrap();
            let piece = payload.subrange(pos, end);
            assert(values == prev.push(piece));
            prev.lemma_flatten_push(piece);
            assert(payload.subrange(start, pos) + piece =~= payload.subrange(start, end));
            assert forall|i: int| 0 <= i < k implies (#[trigger] values[i]).len() == column_size(names, serials, i) by {
                if i < k - 1 {
                    assert(values[i] == prev[i]);
                }
            }
        }
    }
}

/// A record's values are read one after the other: put end to end, the
/// values of a decoded row (one per column, in the columns' order) are one
/// unbroken stretch of the payload, found after the record's header.
pub proof fn lemma_record_values_contiguous(payload: Seq<u8>, names: Seq<Seq<char>>)
    ensures
        spec_decode_record(payload, names) matches Some(row) ==> exists|a: int, b: int|
            1 <= a <= b <= payload.len() && row.map_values(|e: (Seq<char>, Seq<u8>)| e.1).flatten() == payload.subrange(a, b),
{
    if let Some(row) = spec_decode_record(payload, names) {
        let (header_size, n0) = varint_at(payload, 0).unwrap();
        lemma_varint_len_shape(payload.skip(0));
        assert(payload.skip(0) =~= payload);
        lemma_record_serials_bounds(payload, n0 as int, names.len());
        let (serials, data_start) = record_serials(payload, n0 as int, names.len()).unwrap();
        lemma_record_values_tile(payload, names, serials, data_start, names.len());
        let (values, end) = record_values(payload, names, serials, data_start, names.len()).unwrap();
        assert(row.map_values(|e: (Seq<char>, Seq<u8>)| e.1) =~= values);
        assert(1 <= data_start <= end <= payload.len());
    }
}

/// A row of a table: the value of each column, in the order of the
/// table's columns.
pub struct Row {
    pub entries: Vec<(String, Vec<u8>)>,
}

impl View for Row {
    type V = Seq<(Seq<char>, Seq<u8>)>;

    open spec fn view(&self) -> Seq<(Seq<char>, Seq<u8>)> {
        self.entries@.map_values(|e: (String, Vec<u8>)| (e.0@, e.1@))
    }
}

impl Row {
    /// The value of column `name` (of the last column of that name).
    pub fn get(&self, name: &String) -> (res: Option<&Vec<u8>>)
        ensures
            match res {
                Some(v) => row_lookup(self@, name@) == Some(v@),
                None => row_lookup(self@, name@) is None,
            },
    {
        let mut i: usize = self.entries.len();
        assert(self@.take(i as int) =~= self@);
        while i > 0
            invariant
                i <= self.entries@.len(),
                row_lookup(self@, name@) == row_lookup(self@.take(i as int), name@),
            decreases i,
        {
            let ghost prefix = self@.take(i as int);
            assert(prefix.drop_last() =~= self@.take(i - 1));
            if self.entries[i - 1].0 == *name {
                return Some(&self.entries[i - 1].1);
            }
            i = i - 1;
        }
        None
    }
}

} // verus!
