//! The record store: every record that was ever created, which of them are
//! spent, and the changes that the block in flight has staged.
//!
//! A record is found by its commitment and spent by its serial number. Adding
//! and spending only stage a change; `commit` promotes what is staged. The
//! store keeps its entries in the order in which they arrived, so that what a
//! scan returns is the same on every replica.

use vstd::prelude::*;
use crate::field::Field;

verus! {

/// An encrypted record.
#[derive(Debug, PartialEq, Eq)]
pub struct Record {
    /// The serial number that a transaction reveals to spend this record.
    pub serial_number: Field,
    /// The encrypted payload: opaque to the store.
    pub ciphertext: Vec<u8>,
}

/// What a `Record` holds.
pub struct RecordView {
    pub serial_number: Field,
    pub ciphertext: Seq<u8>,
}

impl View for Record {
    type V = RecordView;

    open spec fn view(&self) -> RecordView {
        RecordView { serial_number: self.serial_number, ciphertext: self.ciphertext@ }
    }
}

impl DeepView for Record {
    type V = RecordView;

    open spec fn deep_view(&self) -> RecordView {
        self@
    }
}

impl Clone for Record {
    fn clone(&self) -> (copy: Record)
        ensures
            copy@ == self@,
    {
        Record { serial_number: self.serial_number, ciphertext: self.ciphertext.clone() }
    }
}

/// Why the store refused a change.
#[derive(Clone, Copy, Debug, PartialEq, Eq, Structural)]
pub enum StoreError {
    /// A record with this commitment is already stored or staged.
    CommitmentExists,
    /// No stored or staged record has this serial number.
    UnknownRecord,
    /// The serial number is already spent, or staged to be.
    AlreadySpent,
}

/// A record under its commitment.
pub type Entry = (Field, RecordView);

/// A record under its commitment, and whether it is spent.
pub type ScanItem = (Field, RecordView, bool);

/// Whether some entry has the commitment `c`.
pub open spec fn has_commitment(entries: Seq<Entry>, c: Field) -> bool {
    exists|i: int| 0 <= i < entries.len() && (#[trigger] entries[i]).0 == c
}

/// Whether some entry holds a record with the serial number `sn`.
pub open spec fn has_serial(entries: Seq<Entry>, sn: Field) -> bool {
    exists|i: int| 0 <= i < entries.len() && (#[trigger] entries[i]).1.serial_number == sn
}

/// Whether `c` lies in the range from `lo` (included) to `hi` (excluded); a
/// bound that is `None` does not bind.
pub open spec fn in_range(c: Field, lo: Option<Field>, hi: Option<Field>) -> bool {
    &&& lo matches Some(l) ==> l.as_nat() <= c.as_nat()
    &&& hi matches Some(h) ==> c.as_nat() < h.as_nat()
}

/// The entries whose commitment lies in the range, in their order, each with
/// the word on whether its serial number is among `spent`.
pub open spec fn scan_entries(
    entries: Seq<Entry>,
    spent: Seq<Field>,
    lo: Option<Field>,
    hi: Option<Field>,
) -> Seq<ScanItem>
    decreases entries.len(),
{
    if entries.len() == 0 {
        Seq::empty()
    } else {
        let before = scan_entries(entries.drop_last(), spent, lo, hi);
        let e = entries.last();
        if in_range(e.0, lo, hi) {
            before.push((e.0, e.1, spent.contains(e.1.serial_number)))
        } else {
            before
        }
    }
}

/// The state of a record store.
pub struct RecordStoreView {
    /// The committed records, oldest first.
    pub committed: Seq<Entry>,
    /// The serial numbers that committed blocks have spent, oldest first.
    pub spent: Seq<Field>,
    /// The records that the block in flight adds.
    pub pending_add: Seq<Entry>,
    /// The serial numbers that the block in flight spends.
    pub pending_spend: Seq<Field>,
}

impl RecordStoreView {
    /// The store that holds nothing.
    pub open spec fn empty() -> RecordStoreView {
        RecordStoreView {
            committed: Seq::empty(),
            spent: Seq::empty(),
            pending_add: Seq::empty(),
            pending_spend: Seq::empty(),
        }
    }

    /// Whether a record with the commitment `c` is stored or staged.
    pub open spec fn holds(self, c: Field) -> bool {
        has_commitment(self.committed, c) || has_commitment(self.pending_add, c)
    }

    /// Whether a stored or staged record has the serial number `sn`.
    pub open spec fn knows(self, sn: Field) -> bool {
        has_serial(self.committed, sn) || has_serial(self.pending_add, sn)
    }

    /// Whether `sn` is spent, or staged to be.
    pub open spec fn is_spent(self, sn: Field) -> bool {
        self.spent.contains(sn) || self.pending_spend.contains(sn)
    }

    /// Whether `sn` names a record that can still be spent.
    pub open spec fn is_unspent(self, sn: Field) -> bool {
        self.knows(sn) && !self.is_spent(sn)
    }

    /// Whether nothing is staged.
    pub open spec fn staging_is_empty(self) -> bool {
        self.pending_add.len() == 0 && self.pending_spend.len() == 0
    }

    /// Staging `record` under `c`: refused if `c` is taken.
    pub open spec fn add(self, c: Field, record: RecordView) -> Result<RecordStoreView, StoreError> {
        if self.holds(c) {
            Err(StoreError::CommitmentExists)
        } else {
            Ok(RecordStoreView { pending_add: self.pending_add.push((c, record)), ..self })
        }
    }

    /// Staging the spend of `sn`: refused unless `sn` is unspent.
    pub open spec fn spend(self, sn: Field) -> Result<RecordStoreView, StoreError> {
        if !self.knows(sn) {
            Err(StoreError::UnknownRecord)
        } else if self.is_spent(sn) {
            Err(StoreError::AlreadySpent)
        } else {
            Ok(RecordStoreView { pending_spend: self.pending_spend.push(sn), ..self })
        }
    }

    /// Promoting what is staged.
    pub open spec fn commit(self) -> RecordStoreView {
        RecordStoreView {
            committed: self.committed + self.pending_add,
            spent: self.spent + self.pending_spend,
            pending_add: Seq::empty(),
            pending_spend: Seq::empty(),
        }
    }

    /// The committed records in the range, each with its spent flag.
    pub open spec fn scan(self, lo: Option<Field>, hi: Option<Field>) -> Seq<ScanItem> {
        scan_entries(self.committed, self.spent, lo, hi)
    }

    /// The part of the committed records that a scan by pages reaches from
    /// the place `start` on with at most `count` records.
    pub open spec fn page(self, start: nat, count: nat) -> Seq<Entry> {
        let from = if start <= self.committed.len() {
            start as int
        } else {
            self.committed.len() as int
        };
        let to = if from + count <= self.committed.len() {
            from + count
        } else {
            self.committed.len() as int
        };
        self.committed.subrange(from, to)
    }

    /// Staging the entries one after the other, up to the first that is
    /// refused.
    pub open spec fn add_entries(self, entries: Seq<Entry>) -> Result<RecordStoreView, StoreError>
        decreases entries.len(),
    {
        if entries.len() == 0 {
            Ok(self)
        } else {
            match self.add_entries(entries.drop_last()) {
                Err(e) => Err(e),
                Ok(before) => before.add(entries.last().0, entries.last().1),
            }
        }
    }

    /// Staging the spends one after the other, up to the first that is
    /// refused.
    pub open spec fn spend_serials(self, serials: Seq<Field>) -> Result<RecordStoreView, StoreError>
        decreases serials.len(),
    {
        if serials.len() == 0 {
            Ok(self)
        } else {
            match self.spend_serials(serials.drop_last()) {
                Err(e) => Err(e),
                Ok(before) => before.spend(serials.last()),
            }
        }
    }

    /// The store that is built from what was kept of a store: the records
    /// are added and committed, then the spends are staged and committed.
    /// What the store would not have taken is refused.
    pub open spec fn restored(records: Seq<Entry>, spent: Seq<Field>) -> Result<
        RecordStoreView,
        StoreError,
    > {
        match RecordStoreView::empty().add_entries(records) {
            Err(e) => Err(e),
            Ok(added) => match added.commit().spend_serials(spent) {
                Err(e) => Err(e),
                Ok(marked) => Ok(marked.commit()),
            },
        }
    }

    /// What holds of every store that arose from the empty one: no commitment
    /// occurs twice, no serial number is spent twice, and only records that the
    /// store knows are spent.
    pub open spec fn wf(self) -> bool {
        let all = self.committed + self.pending_add;
        let spends = self.spent + self.pending_spend;
        &&& forall|i: int, j: int|
            0 <= i < j < all.len() ==> (#[trigger] all[i]).0 != (#[trigger] all[j]).0
        &&& spends.no_duplicates()
        &&& forall|k: int| 0 <= k < spends.len() ==> self.knows(#[trigger] spends[k])
    }
}

/// The persistent map from commitment to record, with the spent serial
/// numbers and the staging layer of the block in flight.
pub struct RecordStore {
    committed: Vec<(Field, Record)>,
    spent: Vec<Field>,
    pending_add: Vec<(Field, Record)>,
    pending_spend: Vec<Field>,
}

impl View for RecordStore {
    type V = RecordStoreView;

    closed spec fn view(&self) -> RecordStoreView {
        RecordStoreView {
            committed: self.committed.deep_view(),
            spent: self.spent@,
            pending_add: self.pending_add.deep_view(),
            pending_spend: self.pending_spend@,
        }
    }
}

fn find_commitment(entries: &Vec<(Field, Record)>, c: Field) -> (found: bool)
    ensures
        found == has_commitment(entries.deep_view(), c),
{
    let mut i: usize = 0;
    while i < entries.len()
        invariant
            i <= entries.len(),
            forall|k: int| 0 <= k < i ==> (#[trigger] entries.deep_view()[k]).0 != c,
        decreases entries.len() - i,
    {
        if entries[i].0 == c {
            assert(entries.deep_view()[i as int].0 == c);
            return true;
        }
        i += 1;
    }
    false
}

fn find_serial(entries: &Vec<(Field, Record)>, sn: Field) -> (found: bool)
    ensures
        found == has_serial(entries.deep_view(), sn),
{
    let mut i: usize = 0;
    while i < entries.len()
        invariant
            i <= entries.len(),
            forall|k: int|
                0 <= k < i ==> (#[trigger] entries.deep_view()[k]).1.serial_number != sn,
        decreases entries.len() - i,
    {
        if entries[i].1.serial_number == sn {
            assert(entries.deep_view()[i as int].1.serial_number == sn);
            return true;
        }
        i += 1;
    }
    false
}

fn find_field(fields: &Vec<Field>, f: Field) -> (found: bool)
    ensures
        found == fields@.contains(f),
{
    let mut i: usize = 0;
    while i < fields.len()
        invariant
            i <= fields.len(),
            forall|k: int| 0 <= k < i ==> fields@[k] != f,
        decreases fields.len() - i,
    {
        if fields[i] == f {
            return true;
        }
        i += 1;
    }
    false
}

impl RecordStore {
    /// A store that holds nothing.
    pub fn new() -> (store: RecordStore)
        ensures
            store@ == RecordStoreView::empty(),
    {
        let store = RecordStore {
            committed: Vec::new(),
            spent: Vec::new(),
            pending_add: Vec::new(),
            pending_spend: Vec::new(),
        };
        assert(store.committed.deep_view() =~= Seq::empty());
        assert(store.pending_add.deep_view() =~= Seq::empty());
        store
    }

    /// The store over what was kept of a store: the records of `records`
    /// as committed records, of which those with a serial number of `spent`
    /// are spent. Fails where a commitment comes twice, or a serial number of
    /// `spent` comes twice or is that of no record.
    pub fn restore(records: Vec<(Field, Record)>, spent: Vec<Field>) -> (res: Result<
        RecordStore,
        StoreError,
    >)
        ensures
            match RecordStoreView::restored(records.deep_view(), spent@) {
                Ok(kept) => res matches Ok(store) && store@ == kept,
                Err(e) => res matches Err(x) && x == e,
            },
    {
        let mut store = RecordStore::new();
        let ghost all = records.deep_view();
        let mut i: usize = 0;
        assert(all.take(0) =~= Seq::empty());
        while i < records.len()
            invariant
                i <= records.len(),
                all == records.deep_view(),
                RecordStoreView::empty().add_entries(all.take(i as int)) == Ok::<
                    RecordStoreView,
                    StoreError,
                >(store@),
            decreases records.len() - i,
        {
            assert(all.take(i + 1).drop_last() =~= all.take(i as int));
            assert(all.take(i + 1).last() == records[i as int].deep_view());
            match store.add(records[i].0, records[i].1.clone()) {
                Ok(_) => {},
                Err(e) => {
                    proof {
                        lemma_add_entries_prefix(RecordStoreView::empty(), all, i + 1);
                    }
                    return Err(e);
                },
            }
            i += 1;
        }
        assert(all.take(i as int) =~= all);
        store.commit();
        let ghost added = store@;
        let mut k: usize = 0;
        assert(spent@.take(0) =~= Seq::empty());
        while k < spent.len()
            invariant
                k <= spent.len(),
                all == records.deep_view(),
                RecordStoreView::empty().add_entries(all) matches Ok(a) && a.commit() == added,
                added.spend_serials(spent@.take(k as int)) == Ok::<RecordStoreView, StoreError>(
                    store@,
                ),
            decreases spent.len() - k,
        {
            assert(spent@.take(k + 1).drop_last() =~= spent@.take(k as int));
            match store.spend(spent[k]) {
                Ok(_) => {},
                Err(e) => {
                    proof {
                        lemma_spend_serials_prefix(added, spent@, k + 1);
                    }
                    return Err(e);
                },
            }
            k += 1;
        }
        assert(spent@.take(k as int) =~= spent@);
        store.commit();
        Ok(store)
    }

    /// Stages `record` under `commitment`. Fails, and changes nothing, if a
    /// record with that commitment is already stored or staged.
    pub fn add(&mut self, commitment: Field, record: Record) -> (res: Result<(), StoreError>)
        ensures
            match old(self)@.add(commitment, record@) {
                Ok(after) => res is Ok && final(self)@ == after,
                Err(e) => res == Err::<(), StoreError>(e) && final(self)@ == old(self)@,
            },
    {
        if find_commitment(&self.committed, commitment) || find_commitment(
            &self.pending_add,
            commitment,
        ) {
            return Err(StoreError::CommitmentExists);
        }
        let ghost record_view = record@;
        self.pending_add.push((commitment, record));
        assert(self.pending_add.deep_view() =~= old(self).pending_add.deep_view().push(
            (commitment, record_view),
        ));
        Ok(())
    }

    /// Whether `serial_number` names a record that is stored or staged and is
    /// neither spent nor staged to be spent.
    pub fn is_unspent(&self, serial_number: Field) -> (unspent: bool)
        ensures
            unspent == self@.is_unspent(serial_number),
    {
        (find_serial(&self.committed, serial_number) || find_serial(
            &self.pending_add,
            serial_number,
        )) && !find_field(&self.spent, serial_number) && !find_field(
            &self.pending_spend,
            serial_number,
        )
    }

    /// Stages the spend of `serial_number`. Fails, and changes nothing, if no
    /// record has that serial number or if it is spent already.
    pub fn spend(&mut self, serial_number: Field) -> (res: Result<(), StoreError>)
        ensures
            match old(self)@.spend(serial_number) {
                Ok(after) => res is Ok && final(self)@ == after,
                Err(e) => res == Err::<(), StoreError>(e) && final(self)@ == old(self)@,
            },
    {
        if !(find_serial(&self.committed, serial_number) || find_serial(
            &self.pending_add,
            serial_number,
        )) {
            return Err(StoreError::UnknownRecord);
        }
        if find_field(&self.spent, serial_number) || find_field(
            &self.pending_spend,
            serial_number,
        ) {
            return Err(StoreError::AlreadySpent);
        }
        self.pending_spend.push(serial_number);
        Ok(())
    }

    /// Promotes what is staged: the staged records become committed, the
    /// staged spends become final, and the staging is left empty.
    pub fn commit(&mut self)
        ensures
            final(self)@ == old(self)@.commit(),
            final(self)@.staging_is_empty(),
    {
        self.committed.append(&mut self.pending_add);
        self.spent.append(&mut self.pending_spend);
        assert(self.committed.deep_view() =~= old(self).committed.deep_view() + old(
            self,
        ).pending_add.deep_view());
        assert(self.pending_add.deep_view() =~= Seq::empty());
    }

    /// The committed records whose commitment lies between `lo` (included)
    /// and `hi` (excluded), oldest first, each with its spent flag. What is
    /// staged does not show.
    pub fn scan(&self, lo: Option<Field>, hi: Option<Field>) -> (items: Vec<(Field, Record, bool)>)
        ensures
            items.deep_view() == self@.scan(lo, hi),
    {
        let mut items: Vec<(Field, Record, bool)> = Vec::new();
        let mut i: usize = 0;
        assert(self.committed.deep_view().take(0) =~= Seq::empty());
        while i < self.committed.len()
            invariant
                i <= self.committed.len(),
                items.deep_view() == scan_entries(
                    self.committed.deep_view().take(i as int),
                    self.spent@,
                    lo,
                    hi,
                ),
            decreases self.committed.len() - i,
        {
            let commitment = self.committed[i].0;
            let above = match lo {
                Some(l) => !commitment.below(&l),
                None => true,
            };
            let under = match hi {
                Some(h) => commitment.below(&h),
                None => true,
            };
            let ghost before = items.deep_view();
            let ghost entries = self.committed.deep_view();
            assert(entries.take(i + 1).drop_last() =~= entries.take(i as int));
            assert(entries.take(i + 1).last() == entries[i as int]);
            if above && under {
                let record = self.committed[i].1.clone();
                let spent = find_field(&self.spent, record.serial_number);
                items.push((commitment, record, spent));
                assert(items.deep_view() =~= before.push(
                    (commitment, entries[i as int].1, spent),
                ));
            }
            i += 1;
        }
        assert(self.committed.deep_view().take(i as int) =~= self.committed.deep_view());
        items
    }

    /// The number of committed records.
    pub fn len(&self) -> (n: usize)
        ensures
            n == self@.committed.len(),
    {
        self.committed.len()
    }

    /// One page of a scan: at most `count` committed records from the place
    /// `start` on, oldest first, each with its spent flag. A scan that goes on
    /// from where the page ended misses nothing and sees nothing twice, since
    /// committed records keep their places.
    pub fn scan_page(&self, start: usize, count: usize) -> (items: Vec<(Field, Record, bool)>)
        ensures
            items.deep_view() == scan_entries(
                self@.page(start as nat, count as nat),
                self@.spent,
                None,
                None,
            ),
            items.len() == self@.page(start as nat, count as nat).len(),
    {
        let n = self.committed.len();
        let from = if start <= n {
            start
        } else {
            n
        };
        let to = if count <= n - from {
            from + count
        } else {
            n
        };
        let ghost entries = self.committed.deep_view();
        let ghost page = entries.subrange(from as int, to as int);
        let mut items: Vec<(Field, Record, bool)> = Vec::new();
        let mut i: usize = from;
        assert(page.take(0) =~= Seq::empty());
        while i < to
            invariant
                from <= i <= to <= self.committed.len(),
                entries == self.committed.deep_view(),
                page == entries.subrange(from as int, to as int),
                items.len() == i - from,
                items.deep_view() == scan_entries(page.take(i - from), self.spent@, None, None),
            decreases to - i,
        {
            let ghost before = items.deep_view();
            assert(page.take(i - from + 1).drop_last() =~= page.take(i - from));
            assert(page.take(i - from + 1).last() == entries[i as int]);
            let record = self.committed[i].1.clone();
            let spent = find_field(&self.spent, record.serial_number);
            items.push((self.committed[i].0, record, spent));
            assert(items.deep_view() =~= before.push((entries[i as int].0, entries[i as int].1, spent)));
            i += 1;
        }
        assert(page.take(to - from) =~= page);
        items
    }

    /// The serial numbers that committed blocks have spent, oldest first.
    pub fn scan_spent(&self) -> (spent: Vec<Field>)
        ensures
            spent@ == self@.spent,
    {
        self.spent.clone()
    }
}

/// Where a prefix of the entries is refused, the whole is refused for the
/// same reason.
pub proof fn lemma_add_entries_prefix(s: RecordStoreView, entries: Seq<Entry>, i: int)
    requires
        0 <= i <= entries.len(),
        s.add_entries(entries.take(i)) is Err,
    ensures
        s.add_entries(entries) == s.add_entries(entries.take(i)),
    decreases entries.len(),
{
    if i == entries.len() {
        assert(entries.take(i) =~= entries);
    } else {
        assert(entries.drop_last().take(i) =~= entries.take(i));
        lemma_add_entries_prefix(s, entries.drop_last(), i);
    }
}

/// Where a prefix of the spends is refused, the whole is refused for the
/// same reason.
pub proof fn lemma_spend_serials_prefix(s: RecordStoreView, serials: Seq<Field>, i: int)
    requires
        0 <= i <= serials.len(),
        s.spend_serials(serials.take(i)) is Err,
    ensures
        s.spend_serials(serials) == s.spend_serials(serials.take(i)),
    decreases serials.len(),
{
    if i == serials.len() {
        assert(serials.take(i) =~= serials);
    } else {
        assert(serials.drop_last().take(i) =~= serials.take(i));
        lemma_spend_serials_prefix(s, serials.drop_last(), i);
    }
}

} // verus!
