//! The address ledger: every receive address handed out, with the derivation
//! path and index it was derived at.
//!
//! The ledger holds the two rules that make an allocation safe. No address
//! occurs twice, and no index occurs twice under one path. Every operation
//! keeps them, so a caller that stores the ledger row by row never stores a
//! duplicate.

use crate::encoding::text_eq;
use vstd::prelude::*;

verus! {

/// One allocated address.
pub struct AddressRecord {
    /// The address, in its checksummed text form.
    pub address: String,
    /// The derivation path the address was derived below.
    pub path: String,
    /// The index below that path.
    pub addr_index: u32,
    /// When the record was stored.
    pub created_at: u64,
    /// When a deposit to the address was last seen, if ever.
    pub last_used: Option<u64>,
}

/// The mathematical content of an `AddressRecord`.
pub struct AddressRecordView {
    pub address: Seq<char>,
    pub path: Seq<char>,
    pub addr_index: u32,
    pub created_at: u64,
    pub last_used: Option<u64>,
}

impl View for AddressRecord {
    type V = AddressRecordView;

    open spec fn view(&self) -> AddressRecordView {
        AddressRecordView {
            address: self.address@,
            path: self.path@,
            addr_index: self.addr_index,
            created_at: self.created_at,
            last_used: self.last_used,
        }
    }
}

/// Why the ledger refused a record.
#[derive(Debug, Clone, Copy, PartialEq, Eq, Structural)]
pub enum LedgerError {
    /// The address is already recorded at another path or index.
    AddressTaken,
}

/// The ledger of allocated addresses, in the order they were stored.
pub struct WalletDatabase {
    rows: Vec<AddressRecord>,
}

/// The records of `rows`, each by its view.
pub open spec fn views(rows: Seq<AddressRecord>) -> Seq<AddressRecordView> {
    rows.map_values(|r: AddressRecord| r@)
}

/// The ledger's rules: no address twice, no index twice under one path.
pub open spec fn ledger_wf(rows: Seq<AddressRecordView>) -> bool {
    forall|i: int, j: int|
        #![trigger rows[i], rows[j]]
        0 <= i < j < rows.len() ==> rows[i].address != rows[j].address && !(rows[i].path
            == rows[j].path && rows[i].addr_index == rows[j].addr_index)
}

/// Whether some record of `rows` has this address.
pub open spec fn holds_address(rows: Seq<AddressRecordView>, address: Seq<char>) -> bool {
    exists|i: int| 0 <= i < rows.len() && (#[trigger] rows[i]).address == address
}

/// Whether some record of `rows` has this index under this path.
pub open spec fn holds_slot(rows: Seq<AddressRecordView>, path: Seq<char>, addr_index: u32) -> bool {
    exists|i: int|
        0 <= i < rows.len() && (#[trigger] rows[i]).path == path && rows[i].addr_index == addr_index
}

/// The greatest index recorded under `path`, if any is.
pub open spec fn max_index(rows: Seq<AddressRecordView>, path: Seq<char>) -> Option<u32>
    decreases rows.len(),
{
    if rows.len() == 0 {
        None
    } else {
        let before = max_index(rows.drop_last(), path);
        let last = rows.last();
        if last.path != path {
            before
        } else {
            match before {
                Some(m) => if m >= last.addr_index {
                    Some(m)
                } else {
                    Some(last.addr_index)
                },
                None => Some(last.addr_index),
            }
        }
    }
}

/// `max_index` is the index of some record under the path, and no record
/// under the path has a greater one; it is nothing exactly when the path has
/// no record.
pub proof fn lemma_max_index(rows: Seq<AddressRecordView>, path: Seq<char>)
    ensures
        max_index(rows, path) matches Some(m) ==> holds_slot(rows, path, m),
        max_index(rows, path) matches Some(m) ==> forall|i: int|
            0 <= i < rows.len() && (#[trigger] rows[i]).path == path ==> rows[i].addr_index <= m,
        max_index(rows, path) is None ==> forall|i: int|
            0 <= i < rows.len() ==> (#[trigger] rows[i]).path != path,
    decreases rows.len(),
{
    if rows.len() > 0 {
        let head = rows.drop_last();
        lemma_max_index(head, path);
        assert forall|i: int| 0 <= i < head.len() implies head[i] == rows[i] by {}
        match max_index(rows, path) {
            Some(m) => {
                if rows.last().path == path && rows.last().addr_index == m {
                    assert(rows[rows.len() - 1].path == path);
                } else {
                    assert(max_index(head, path) == Some(m));
                    let w = choose|i: int|
                        0 <= i < head.len() && (#[trigger] head[i]).path == path && head[i].addr_index
                            == m;
                    assert(rows[w].path == path && rows[w].addr_index == m);
                }
                assert forall|i: int|
                    0 <= i < rows.len() && (#[trigger] rows[i]).path == path implies rows[i].addr_index
                    <= m by {
                    if i < head.len() {
                        assert(head[i].path == path);
                    }
                }
            },
            None => {
                assert forall|i: int| 0 <= i < rows.len() implies (#[trigger] rows[i]).path != path by {
                    if i < head.len() {
                        assert(head[i].path != path);
                    }
                }
            },
        }
    }
}

impl View for WalletDatabase {
    type V = Seq<AddressRecordView>;

    closed spec fn view(&self) -> Seq<AddressRecordView> {
        views(self.rows@)
    }
}

impl WalletDatabase {
    /// Whether the ledger keeps its rules. A new ledger does, `from_records`
    /// admits only records that do, and every operation preserves them.
    pub open spec fn wf(&self) -> bool {
        ledger_wf(self@)
    }

    /// An empty ledger.
    pub fn new() -> (db: Self)
        ensures
            db@ == Seq::<AddressRecordView>::empty(),
            db.wf(),
    {
        let db = WalletDatabase { rows: Vec::new() };
        assert(views(db.rows@) =~= Seq::<AddressRecordView>::empty());
        db
    }

    /// The number of records.
    pub fn len(&self) -> (n: usize)
        ensures
            n == self@.len(),
    {
        self.rows.len()
    }

    /// The position of the record with this address.
    fn position_of_address(&self, address: &str) -> (found: Option<usize>)
        ensures
            found matches Some(i) ==> i < self@.len() && self@[i as int].address == address@,
            found is None ==> !holds_address(self@, address@),
    {
        let mut i: usize = 0;
        while i < self.rows.len()
            invariant
                i <= self.rows.len(),
                forall|k: int| 0 <= k < i ==> (#[trigger] views(self.rows@)[k]).address != address@,
            decreases self.rows.len() - i,
        {
            if text_eq(self.rows[i].address.as_str(), address) {
                return Some(i);
            }
            i += 1;
        }
        None
    }

    /// The position of the record with this index under this path.
    fn position_of_slot(&self, path: &str, addr_index: u32) -> (found: Option<usize>)
        ensures
            found matches Some(i) ==> i < self@.len() && self@[i as int].path == path@
                && self@[i as int].addr_index == addr_index,
            found is None ==> !holds_slot(self@, path@, addr_index),
    {
        let mut i: usize = 0;
        while i < self.rows.len()
            invariant
                i <= self.rows.len(),
                forall|k: int|
                    0 <= k < i ==> !((#[trigger] views(self.rows@)[k]).path == path@ && views(
                        self.rows@,
                    )[k].addr_index == addr_index),
            decreases self.rows.len() - i,
        {
            if self.rows[i].addr_index == addr_index && text_eq(self.rows[i].path.as_str(), path) {
                return Some(i);
            }
            i += 1;
        }
        None
    }

    /// Records `address` at `addr_index` under `path`, stamped `now`.
    ///
    /// `Ok(false)`, and nothing stored, where the path already has that index.
    /// Otherwise `AddressTaken`, and nothing stored, where the address is
    /// already recorded. Otherwise the record is appended and the answer is
    /// `Ok(true)`.
    pub fn store_address(&mut self, address: &str, path: &str, addr_index: u32, now: u64) -> (stored:
        Result<bool, LedgerError>)
        ensures
            old(self).wf() ==> final(self).wf(),
            match stored {
                Ok(true) => !holds_slot(old(self)@, path@, addr_index) && !holds_address(
                    old(self)@,
                    address@,
                ) && final(self)@ == old(self)@.push(
                    AddressRecordView {
                        address: address@,
                        path: path@,
                        addr_index,
                        created_at: now,
                        last_used: None,
                    },
                ),
                Ok(false) => holds_slot(old(self)@, path@, addr_index) && final(self)@ == old(self)@,
                Err(e) => e == LedgerError::AddressTaken && !holds_slot(old(self)@, path@, addr_index)
                    && holds_address(old(self)@, address@) && final(self)@ == old(self)@,
            },
    {
        if self.position_of_slot(path, addr_index).is_some() {
            return Ok(false);
        }
        if self.position_of_address(address).is_some() {
            return Err(LedgerError::AddressTaken);
        }
        let record = AddressRecord {
            address: String::from_str(address),
            path: String::from_str(path),
            addr_index,
            created_at: now,
            last_used: None,
        };
        let ghost before = views(self.rows@);
        let ghost added = record@;
        proof {
            if ledger_wf(before) {
                assert forall|i: int, j: int|
                    #![trigger before.push(added)[i], before.push(added)[j]]
                    0 <= i < j < before.push(added).len() implies before.push(added)[i].address
                    != before.push(added)[j].address && !(before.push(added)[i].path
                    == before.push(added)[j].path && before.push(added)[i].addr_index
                    == before.push(added)[j].addr_index) by {
                    if j < before.len() {
                        assert(before[i].address != before[j].address);
                    } else {
                        assert(before[i].address != address@);
                        assert(!(before[i].path == path@ && before[i].addr_index == addr_index));
                    }
                }
            }
            assert(views(self.rows@.push(record)) =~= before.push(added));
        }
        self.rows.push(record);
        Ok(true)
    }

    /// The greatest index recorded under `path`, if any is.
    pub fn get_max_index_for_path(&self, path: &str) -> (max: Option<u32>)
        ensures
            max == max_index(self@, path@),
    {
        let mut best: Option<u32> = None;
        let mut i: usize = 0;
        assert(views(self.rows@).take(0) =~= Seq::<AddressRecordView>::empty());
        while i < self.rows.len()
            invariant
                i <= self.rows.len(),
                best == max_index(views(self.rows@).take(i as int), path@),
            decreases self.rows.len() - i,
        {
            proof {
                let next = views(self.rows@).take(i + 1);
                assert(next.drop_last() =~= views(self.rows@).take(i as int));
                assert(next.last() == views(self.rows@)[i as int]);
            }
            if text_eq(self.rows[i].path.as_str(), path) {
                let idx: u32 = self.rows[i].addr_index;
                best = match best {
                    Some(m) => if m >= idx {
                        Some(m)
                    } else {
                        Some(idx)
                    },
                    None => Some(idx),
                };
            }
            i += 1;
        }
        assert(views(self.rows@).take(i as int) =~= views(self.rows@));
        best
    }

    /// Whether `address` is recorded.
    pub fn address_exists(&self, address: &str) -> (known: bool)
        ensures
            known == holds_address(self@, address@),
    {
        self.position_of_address(address).is_some()
    }

    /// The address recorded at `addr_index` under `path`, if there is one.
    pub fn get_address_by_path_and_index(&self, path: &str, addr_index: u32) -> (address: Option<
        String,
    >)
        ensures
            address is Some <==> holds_slot(self@, path@, addr_index),
            address matches Some(a) ==> exists|i: int|
                0 <= i < self@.len() && (#[trigger] self@[i]).path == path@ && self@[i].addr_index
                    == addr_index && self@[i].address == a@,
    {
        match self.position_of_slot(path, addr_index) {
            Some(i) => {
                let address = self.rows[i].address.clone();
                assert(self@[i as int].address == address@);
                Some(address)
            },
            None => None,
        }
    }

    /// Stamps the record of `address` as used at `now`. A ledger without the
    /// address is left as it is.
    pub fn update_last_used(&mut self, address: &str, now: u64) -> (updated: bool)
        ensures
            old(self).wf() ==> final(self).wf(),
            updated == holds_address(old(self)@, address@),
            final(self)@.len() == old(self)@.len(),
            forall|i: int|
                0 <= i < old(self)@.len() ==> #[trigger] final(self)@[i] == (if old(self)@[i].address
                    == address@ {
                    AddressRecordView { last_used: Some(now), ..old(self)@[i] }
                } else {
                    old(self)@[i]
                }),
    {
        let ghost before = views(self.rows@);
        let mut updated = false;
        let mut i: usize = 0;
        while i < self.rows.len()
            invariant
                i <= self.rows@.len(),
                self.rows@.len() == before.len(),
                updated == (exists|k: int| 0 <= k < i && (#[trigger] before[k]).address == address@),
                forall|k: int|
                    0 <= k < i ==> #[trigger] views(self.rows@)[k] == (if before[k].address
                        == address@ {
                        AddressRecordView { last_used: Some(now), ..before[k] }
                    } else {
                        before[k]
                    }),
                forall|k: int| i <= k < before.len() ==> #[trigger] views(self.rows@)[k] == before[k],
            decreases self.rows@.len() - i,
        {
            let same = text_eq(self.rows[i].address.as_str(), address);
            proof {
                assert(views(self.rows@)[i as int] == before[i as int]);
                assert(views(self.rows@)[i as int] == self.rows@[i as int]@);
            }
            if same {
                let ghost current = views(self.rows@);
                let old_record = self.rows.remove(i);
                let record = AddressRecord {
                    address: old_record.address,
                    path: old_record.path,
                    addr_index: old_record.addr_index,
                    created_at: old_record.created_at,
                    last_used: Some(now),
                };
                assert(views(self.rows@.insert(i as int, record)) =~= current.update(
                    i as int,
                    record@,
                ));
                self.rows.insert(i, record);
                assert(before[i as int].address == address@);
                updated = true;
            } else {
                assert(before[i as int].address != address@);
            }
            i += 1;
        }
        proof {
            let after = views(self.rows@);
            if ledger_wf(before) {
                assert forall|a: int, b: int|
                    #![trigger after[a], after[b]]
                    0 <= a < b < after.len() implies after[a].address != after[b].address && !(
                    after[a].path == after[b].path && after[a].addr_index
                        == after[b].addr_index) by {
                    assert(before[a].address != before[b].address);
                }
            }
            if holds_address(before, address@) {
                let k = choose|k: int| 0 <= k < before.len() && (#[trigger] before[k]).address == address@;
                assert(0 <= k < i && before[k].address == address@);
            }
        }
        updated
    }
}

/// Whether some record of `rows` has this index, under whatever path.
pub open spec fn holds_index(rows: Seq<AddressRecordView>, addr_index: u32) -> bool {
    exists|i: int| 0 <= i < rows.len() && (#[trigger] rows[i]).addr_index == addr_index
}

/// Whether the numbers of `s` rise strictly.
pub open spec fn increasing(s: Seq<u32>) -> bool {
    forall|a: int, b: int| 0 <= a < b < s.len() ==> s[a] < s[b]
}

/// Whether position `a` comes before position `b` where positions are
/// ordered by their keys, and positions of equal keys by themselves.
pub open spec fn before(keys: Seq<u64>, a: int, b: int) -> bool {
    keys[a] < keys[b] || (keys[a] == keys[b] && a < b)
}

/// Whether `order` lists exactly the wanted positions, each once, ordered
/// by `before`.
pub open spec fn is_ordering(keys: Seq<u64>, wanted: Seq<bool>, order: Seq<usize>) -> bool {
    &&& forall|i: int|
        0 <= i < order.len() ==> (#[trigger] order[i]) < keys.len() && wanted[order[i] as int]
    &&& forall|i: int, j: int|
        0 <= i < j < order.len() ==> before(keys, #[trigger] order[i] as int, #[trigger] order[j] as int)
    &&& forall|k: int| 0 <= k < keys.len() && #[trigger] wanted[k] ==> order.contains(k as usize)
}

/// The index of every record, as a sorting key.
pub open spec fn index_keys(rows: Seq<AddressRecordView>) -> Seq<u64> {
    Seq::new(rows.len(), |k: int| rows[k].addr_index as u64)
}

/// The creation time of every record, as a sorting key.
pub open spec fn creation_keys(rows: Seq<AddressRecordView>) -> Seq<u64> {
    Seq::new(rows.len(), |k: int| rows[k].created_at)
}

/// For every record, whether it lies under `path`.
pub open spec fn under_path(rows: Seq<AddressRecordView>, path: Seq<char>) -> Seq<bool> {
    Seq::new(rows.len(), |k: int| rows[k].path == path)
}

/// For every record, that it is wanted.
pub open spec fn every(rows: Seq<AddressRecordView>) -> Seq<bool> {
    Seq::new(rows.len(), |k: int| true)
}

/// Whether `rows` keep the ledger's rules.
fn keep_rules(rows: &Vec<AddressRecord>) -> (kept: bool)
    ensures
        kept == ledger_wf(views(rows@)),
{
    let mut j: usize = 0;
    while j < rows.len()
        invariant
            j <= rows.len(),
            ledger_wf(views(rows@).take(j as int)),
        decreases rows.len() - j,
    {
        let mut i: usize = 0;
        while i < j
            invariant
                i <= j < rows.len(),
                forall|a: int|
                    0 <= a < i ==> (#[trigger] views(rows@)[a]).address != views(rows@)[j as int].address
                        && !(views(rows@)[a].path == views(rows@)[j as int].path && views(
                        rows@,
                    )[a].addr_index == views(rows@)[j as int].addr_index),
            decreases j - i,
        {
            let same_address = text_eq(rows[i].address.as_str(), rows[j].address.as_str());
            let same_slot = rows[i].addr_index == rows[j].addr_index && text_eq(
                rows[i].path.as_str(),
                rows[j].path.as_str(),
            );
            if same_address || same_slot {
                proof {
                    let v = views(rows@);
                    assert(v[i as int] == rows@[i as int]@);
                    assert(v[j as int] == rows@[j as int]@);
                    if ledger_wf(v) {
                        assert(v[i as int].address != v[j as int].address && !(v[i as int].path
                            == v[j as int].path && v[i as int].addr_index
                            == v[j as int].addr_index));
                    }
                    assert(!ledger_wf(v));
                }
                return false;
            }
            i += 1;
        }
        proof {
            let v = views(rows@);
            let next = v.take(j + 1);
            assert forall|a: int, b: int|
                #![trigger next[a], next[b]]
                0 <= a < b < next.len() implies next[a].address != next[b].address && !(
                next[a].path == next[b].path && next[a].addr_index == next[b].addr_index) by {
                if b < j {
                    assert(v.take(j as int)[a] == v[a] && v.take(j as int)[b] == v[b]);
                } else {
                    assert(v[a].address != v[j as int].address);
                }
            }
        }
        j += 1;
    }
    assert(views(rows@).take(j as int) =~= views(rows@));
    true
}

/// The wanted positions, ordered by key and, among equal keys, by position.
fn sorted_positions(keys: &Vec<u64>, wanted: &Vec<bool>) -> (order: Vec<usize>)
    requires
        keys@.len() == wanted@.len(),
    ensures
        is_ordering(keys@, wanted@, order@),
{
    let mut order: Vec<usize> = Vec::new();
    let mut k: usize = 0;
    while k < keys.len()
        invariant
            k <= keys.len(),
            keys@.len() == wanted@.len(),
            forall|i: int| 0 <= i < order@.len() ==> (#[trigger] order@[i]) < k && wanted@[order@[i] as int],
            forall|i: int, j: int|
                0 <= i < j < order@.len() ==> before(
                    keys@,
                    #[trigger] order@[i] as int,
                    #[trigger] order@[j] as int,
                ),
            forall|m: int| 0 <= m < k && #[trigger] wanted@[m] ==> order@.contains(m as usize),
        decreases keys.len() - k,
    {
        if wanted[k] {
            let mut pos: usize = 0;
            while pos < order.len() && keys[order[pos]] <= keys[k]
                invariant
                    pos <= order@.len(),
                    k < keys@.len(),
                    forall|i: int| 0 <= i < order@.len() ==> (#[trigger] order@[i]) < k,
                    forall|j: int| 0 <= j < pos ==> keys@[(#[trigger] order@[j]) as int] <= keys@[k as int],
                decreases order@.len() - pos,
            {
                pos += 1;
            }
            let ghost old_order = order@;
            order.insert(pos, k);
            proof {
                assert forall|i: int, j: int| 0 <= i < j < order@.len() implies before(
                    keys@,
                    #[trigger] order@[i] as int,
                    #[trigger] order@[j] as int,
                ) by {
                    if j < pos {
                        assert(order@[i] == old_order[i] && order@[j] == old_order[j]);
                    } else if j == pos {
                        assert(order@[i] == old_order[i]);
                    } else if i < pos {
                        assert(order@[i] == old_order[i] && order@[j] == old_order[j - 1]);
                    } else if i == pos {
                        assert(order@[j] == old_order[j - 1]);
                        if j - 1 > pos {
                            assert(before(keys@, old_order[pos as int] as int, old_order[j - 1] as int));
                        }
                    } else {
                        assert(order@[i] == old_order[i - 1] && order@[j] == old_order[j - 1]);
                    }
                }
                assert forall|m: int| 0 <= m < k + 1 && #[trigger] wanted@[m] implies order@.contains(
                    m as usize,
                ) by {
                    if m == k {
                        assert(order@[pos as int] == k);
                    } else {
                        assert(old_order.contains(m as usize));
                        let w = choose|w: int| 0 <= w < old_order.len() && old_order[w] == m as usize;
                        if w < pos {
                            assert(order@[w] == m as usize);
                        } else {
                            assert(order@[w + 1] == m as usize);
                        }
                    }
                }
                assert forall|i: int| 0 <= i < order@.len() implies (#[trigger] order@[i]) < k + 1
                    && wanted@[order@[i] as int] by {
                    if i < pos {
                        assert(order@[i] == old_order[i]);
                    } else if i > pos {
                        assert(order@[i] == old_order[i - 1]);
                    }
                }
            }
        }
        k += 1;
    }
    order
}

impl LedgerError {
    /// A one-line description of the error.
    pub open spec fn text(self) -> Seq<char> {
        match self {
            LedgerError::AddressTaken => "address is already recorded"@,
        }
    }

    /// A one-line description of the error.
    pub fn message(&self) -> (text: &'static str)
        ensures
            text@ == self.text(),
    {
        match self {
            LedgerError::AddressTaken => "address is already recorded",
        }
    }
}

impl WalletDatabase {
    /// The records, in the order they were stored.
    pub fn records(&self) -> (rows: &Vec<AddressRecord>)
        ensures
            views(rows@) == self@,
    {
        &self.rows
    }

    /// A ledger of `rows`, where they keep the ledger's rules: no address
    /// twice and no index twice under one path.
    pub fn from_records(rows: Vec<AddressRecord>) -> (db: Option<Self>)
        ensures
            db is Some <==> ledger_wf(views(rows@)),
            db matches Some(d) ==> d@ == views(rows@) && d.wf(),
    {
        if keep_rules(&rows) {
            Some(WalletDatabase { rows })
        } else {
            None
        }
    }

    /// The address of the record that was stored first among those with this
    /// index, under whatever path.
    pub fn get_address_by_index(&self, addr_index: u32) -> (address: Option<String>)
        ensures
            address is Some <==> holds_index(self@, addr_index),
            address matches Some(a) ==> exists|i: int|
                0 <= i < self@.len() && (#[trigger] self@[i]).addr_index == addr_index
                    && self@[i].address == a@ && forall|k: int|
                    0 <= k < i ==> (#[trigger] self@[k]).addr_index != addr_index,
    {
        let mut i: usize = 0;
        while i < self.rows.len()
            invariant
                i <= self.rows.len(),
                forall|k: int| 0 <= k < i ==> (#[trigger] views(self.rows@)[k]).addr_index != addr_index,
            decreases self.rows.len() - i,
        {
            if self.rows[i].addr_index == addr_index {
                let address = self.rows[i].address.clone();
                assert(self@[i as int].addr_index == addr_index && self@[i as int].address == address@);
                return Some(address);
            }
            i += 1;
        }
        None
    }

    /// The index of every record as a sorting key, and whether it is wanted.
    fn keys_by_index(&self, path: &str) -> (keyed: (Vec<u64>, Vec<bool>))
        ensures
            keyed.0@ == index_keys(self@),
            keyed.1@ == under_path(self@, path@),
    {
        let mut keys: Vec<u64> = Vec::new();
        let mut wanted: Vec<bool> = Vec::new();
        let mut i: usize = 0;
        while i < self.rows.len()
            invariant
                i <= self.rows.len(),
                keys@.len() == i,
                wanted@.len() == i,
                forall|k: int| 0 <= k < i ==> keys@[k] == views(self.rows@)[k].addr_index as u64,
                forall|k: int| 0 <= k < i ==> wanted@[k] == (views(self.rows@)[k].path == path@),
            decreases self.rows.len() - i,
        {
            keys.push(self.rows[i].addr_index as u64);
            wanted.push(text_eq(self.rows[i].path.as_str(), path));
            i += 1;
        }
        assert(keys@ =~= index_keys(self@));
        assert(wanted@ =~= under_path(self@, path@));
        (keys, wanted)
    }

    /// The addresses recorded under `path` with their indices, ordered by
    /// index.
    ///
    /// `order` in the contract is the list of the positions of the records
    /// under `path`, each once, in rising order of index; the answer holds
    /// address and index of the record at each position, in that order.
    pub fn get_all_addresses_by_path(&self, path: &str) -> (listed: Vec<(String, u32)>)
        ensures
            exists|order: Seq<usize>|
                {
                    &&& #[trigger] is_ordering(index_keys(self@), under_path(self@, path@), order)
                    &&& listed@.len() == order.len()
                    &&& forall|i: int|
                        0 <= i < order.len() ==> (#[trigger] listed@[i]).0@ == self@[order[i] as int].address
                            && listed@[i].1 == self@[order[i] as int].addr_index
                },
            forall|i: int, j: int| 0 <= i < j < listed@.len() ==> listed@[i].1 <= listed@[j].1,
    {
        let (keys, wanted) = self.keys_by_index(path);
        let order = sorted_positions(&keys, &wanted);
        let mut listed: Vec<(String, u32)> = Vec::new();
        let mut i: usize = 0;
        while i < order.len()
            invariant
                i <= order@.len(),
                listed@.len() == i,
                is_ordering(index_keys(self@), under_path(self@, path@), order@),
                forall|k: int|
                    0 <= k < i ==> (#[trigger] listed@[k]).0@ == self@[order@[k] as int].address
                        && listed@[k].1 == self@[order@[k] as int].addr_index,
            decreases order@.len() - i,
        {
            let at: usize = order[i];
            assert(at < index_keys(self@).len());
            listed.push((self.rows[at].address.clone(), self.rows[at].addr_index));
            i += 1;
        }
        proof {
            assert forall|a: int, b: int| 0 <= a < b < listed@.len() implies listed@[a].1
                <= listed@[b].1 by {
                assert(before(index_keys(self@), order@[a] as int, order@[b] as int));
            }
        }
        listed
    }

    /// Address and path of every record, ordered by the time of storing;
    /// records of one time stand in the order they were stored.
    ///
    /// `order` in the contract is the list of all positions, each once, in
    /// rising order of `created_at`, and of position where that is equal.
    pub fn get_all_addresses(&self) -> (listed: Vec<(String, String)>)
        ensures
            exists|order: Seq<usize>|
                {
                    &&& #[trigger] is_ordering(creation_keys(self@), every(self@), order)
                    &&& listed@.len() == order.len()
                    &&& forall|i: int|
                        0 <= i < order.len() ==> (#[trigger] listed@[i]).0@ == self@[order[i] as int].address
                            && listed@[i].1@ == self@[order[i] as int].path
                },
    {
        let mut keys: Vec<u64> = Vec::new();
        let mut wanted: Vec<bool> = Vec::new();
        let mut k: usize = 0;
        while k < self.rows.len()
            invariant
                k <= self.rows.len(),
                keys@.len() == k,
                wanted@.len() == k,
                forall|m: int| 0 <= m < k ==> keys@[m] == views(self.rows@)[m].created_at,
                forall|m: int| 0 <= m < k ==> wanted@[m],
            decreases self.rows.len() - k,
        {
            keys.push(self.rows[k].created_at);
            wanted.push(true);
            k += 1;
        }
        assert(keys@ =~= creation_keys(self@));
        assert(wanted@ =~= every(self@));
        let order = sorted_positions(&keys, &wanted);
        let mut listed: Vec<(String, String)> = Vec::new();
        let mut i: usize = 0;
        while i < order.len()
            invariant
                i <= order@.len(),
                listed@.len() == i,
                is_ordering(creation_keys(self@), every(self@), order@),
                forall|m: int|
                    0 <= m < i ==> (#[trigger] listed@[m]).0@ == self@[order@[m] as int].address
                        && listed@[m].1@ == self@[order@[m] as int].path,
            decreases order@.len() - i,
        {
            let at: usize = order[i];
            assert(at < creation_keys(self@).len());
            listed.push((self.rows[at].address.clone(), self.rows[at].path.clone()));
            i += 1;
        }
        listed
    }

    /// Every index that some record has, each once, in rising order.
    pub fn get_all_indexes(&self) -> (indexes: Vec<u32>)
        ensures
            increasing(indexes@),
            forall|x: u32| indexes@.contains(x) <==> holds_index(self@, x),
    {
        let mut indexes: Vec<u32> = Vec::new();
        let mut i: usize = 0;
        while i < self.rows.len()
            invariant
                i <= self.rows.len(),
                increasing(indexes@),
                forall|x: u32|
                    indexes@.contains(x) <==> exists|k: int|
                        0 <= k < i && (#[trigger] views(self.rows@)[k]).addr_index == x,
            decreases self.rows.len() - i,
        {
            let idx: u32 = self.rows[i].addr_index;
            let mut pos: usize = 0;
            while pos < indexes.len() && indexes[pos] < idx
                invariant
                    pos <= indexes@.len(),
                    forall|j: int| 0 <= j < pos ==> indexes@[j] < idx,
                decreases indexes@.len() - pos,
            {
                pos += 1;
            }
            let ghost old_indexes = indexes@;
            let ghost rows = views(self.rows@);
            if pos < indexes.len() && indexes[pos] == idx {
                proof {
                    assert(old_indexes.contains(idx));
                    assert forall|x: u32| indexes@.contains(x) <==> exists|k: int|
                        0 <= k < i + 1 && (#[trigger] rows[k]).addr_index == x by {
                        if indexes@.contains(x) {
                            let k = choose|k: int| 0 <= k < i && (#[trigger] rows[k]).addr_index == x;
                            assert(0 <= k < i + 1 && rows[k].addr_index == x);
                        }
                        if exists|k: int| 0 <= k < i + 1 && (#[trigger] rows[k]).addr_index == x {
                            let k = choose|k: int|
                                0 <= k < i + 1 && (#[trigger] rows[k]).addr_index == x;
                            if k < i {
                                assert(0 <= k < i && rows[k].addr_index == x);
                            }
                        }
                    }
                }
            } else {
                indexes.insert(pos, idx);
                proof {
                    assert forall|a: int, b: int| 0 <= a < b < indexes@.len() implies indexes@[a]
                        < indexes@[b] by {
                        if b < pos {
                            assert(indexes@[a] == old_indexes[a] && indexes@[b] == old_indexes[b]);
                        } else if b == pos {
                            assert(indexes@[a] == old_indexes[a]);
                        } else if a < pos {
                            assert(indexes@[a] == old_indexes[a] && indexes@[b] == old_indexes[b - 1]);
                            assert(old_indexes[a] < idx);
                            if b - 1 > pos {
                                assert(old_indexes[pos as int] < old_indexes[b - 1]);
                            }
                        } else if a == pos {
                            assert(indexes@[b] == old_indexes[b - 1]);
                            if b - 1 > pos {
                                assert(old_indexes[pos as int] < old_indexes[b - 1]);
                            }
                        } else {
                            assert(indexes@[a] == old_indexes[a - 1] && indexes@[b] == old_indexes[b - 1]);
                        }
                    }
                    assert forall|x: u32| indexes@.contains(x) <==> exists|k: int|
                        0 <= k < i + 1 && (#[trigger] rows[k]).addr_index == x by {
                        if indexes@.contains(x) {
                            let w = choose|w: int| 0 <= w < indexes@.len() && indexes@[w] == x;
                            if w == pos {
                                assert(rows[i as int].addr_index == x);
                            } else {
                                if w < pos {
                                    assert(old_indexes[w] == x);
                                } else {
                                    assert(old_indexes[w - 1] == x);
                                }
                                assert(old_indexes.contains(x));
                                let k = choose|k: int|
                                    0 <= k < i && (#[trigger] rows[k]).addr_index == x;
                                assert(0 <= k < i + 1 && rows[k].addr_index == x);
                            }
                        }
                        if exists|k: int| 0 <= k < i + 1 && (#[trigger] rows[k]).addr_index == x {
                            let k = choose|k: int|
                                0 <= k < i + 1 && (#[trigger] rows[k]).addr_index == x;
                            if k < i {
                                assert(0 <= k < i && rows[k].addr_index == x);
                                assert(old_indexes.contains(x));
                                let w = choose|w: int| 0 <= w < old_indexes.len() && old_indexes[w] == x;
                                if w < pos {
                                    assert(indexes@[w] == x);
                                } else {
                                    assert(indexes@[w + 1] == x);
                                }
                            } else {
                                assert(indexes@[pos as int] == x);
                            }
                        }
                    }
                }
            }
            i += 1;
        }
        proof {
            assert forall|x: u32| indexes@.contains(x) <==> holds_index(self@, x) by {
                if indexes@.contains(x) {
                    let k = choose|k: int|
                        0 <= k < i && (#[trigger] views(self.rows@)[k]).addr_index == x;
                    assert(self@[k].addr_index == x);
                }
                if holds_index(self@, x) {
                    let k = choose|k: int| 0 <= k < self@.len() && (#[trigger] self@[k]).addr_index == x;
                    assert(0 <= k < i && views(self.rows@)[k].addr_index == x);
                }
            }
        }
        indexes
    }
}

} // verus!
