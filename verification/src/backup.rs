//! Store Backups: what a backup is called, where it goes and how many survive.
//!
//! A backup is a copy of the database taken before a schema migration runs. It
//! is readable evidence of what the store held before an upgrade, not an undo.

use vstd::prelude::*;
use vstd::relations::{sorted_by, total_ordering};

use crate::paths::{below, join, outer, parent, spread};
use crate::select::{lemma_filter_all, lemma_filter_contains, lemma_filter_none, lemma_filter_step};
use crate::text::{
    chars_of, decimal, decimal_nat, decimal_text, join2, join3,
    lemma_text_le_antisym, lemma_text_le_total, lemma_text_le_trans, not_after, same_text, text_le,
};

verus! {

/// How many Store Backups survive a prune.
///
/// A lossy migration is noticed long after the upgrade that caused it, so the
/// window has to outlive several upgrades.
pub const BACKUPS_KEPT: usize = 10;

/// Why a Store Backup could not be written. It names the directory: the user
/// has nothing else to go on.
#[derive(Debug)]
pub struct BackupError {
    pub dir: String,
    /// What the file system or the database reported.
    pub source: String,
}

/// The model of [`BackupError`].
#[verifier::ext_equal]
pub struct BackupFault {
    pub dir: Seq<char>,
    pub source: Seq<char>,
}

impl View for BackupError {
    type V = BackupFault;

    open spec fn view(&self) -> BackupFault {
        BackupFault { dir: self.dir@, source: self.source@ }
    }
}

impl BackupFault {
    /// What the user reads.
    pub open spec fn message(self) -> Seq<char> {
        self.dir + ": "@ + self.source
    }
}

impl BackupError {
    /// What the user reads.
    pub fn message(&self) -> (r: String)
        ensures
            r@ == self@.message(),
    {
        join3(self.dir.as_str(), ": ", self.source.as_str())
    }

    /// Another report of the same failure.
    pub fn copy(&self) -> (r: BackupError)
        ensures
            r@ == self@,
    {
        BackupError { dir: self.dir.clone(), source: self.source.clone() }
    }
}

/// Whether a character is a decimal digit.
pub open spec fn is_digit(c: char) -> bool {
    '0' <= c <= '9'
}

/// Whether a name reads `<stamp>-v<version>.db` with the dash at `at`: a
/// nonempty stamp and a version of at least three digits.
pub open spec fn versioned_at(name: Seq<char>, at: int) -> bool {
    &&& 0 < at
    &&& at + 8 <= name.len()
    &&& name[at] == '-'
    &&& name[at + 1] == 'v'
    &&& (forall|i: int| at + 2 <= i < name.len() - 3 ==> is_digit(#[trigger] name[i]))
    &&& name.skip(name.len() - 3) == ".db"@
}

/// Whether a name is that of a Store Backup.
pub open spec fn backup_named(name: Seq<char>) -> bool {
    exists|at: int| versioned_at(name, at)
}

/// Whether `name` is a Store Backup written here: the generated shape and
/// nothing else, so neither a working file, nor the store, nor a copy made by
/// hand.
pub fn is_backup_name(name: &str) -> (r: bool)
    ensures
        r == backup_named(name@),
{
    let all = chars_of(name);
    let n: usize = all.len();
    proof {
        reveal_strlit(".db");
        assert(".db"@.len() == 3 && ".db"@[0] == '.' && ".db"@[1] == 'd' && ".db"@[2] == 'b');
    }
    if n < 9 {
        return false;
    }
    let ghost tail = name@.skip(n - 3);
    proof {
        assert(tail[0] == name@[n - 3] && tail[1] == name@[n - 2] && tail[2] == name@[n - 1]);
    }
    if !(all[n - 3] == '.' && all[n - 2] == 'd' && all[n - 1] == 'b') {
        proof {
            assert forall|at: int| !versioned_at(name@, at) by {
                assert(tail != ".db"@);
            }
        }
        return false;
    }
    proof {
        assert(tail =~= ".db"@);
    }
    let mut start: usize = n - 3;
    while start > 0 && '0' <= all[start - 1] && all[start - 1] <= '9'
        invariant
            n == all@.len(),
            all@ == name@,
            n >= 9,
            0 <= start <= n - 3,
            forall|i: int| start <= i < n - 3 ==> is_digit(#[trigger] all@[i]),
        decreases start,
    {
        start = start - 1;
    }
    // Every fitting dash stands two places before the digits begin.
    proof {
        assert forall|at: int| versioned_at(name@, at) implies at + 2 == start by {
            if at + 2 < start {
                assert(is_digit(name@[start - 1]));
            } else if at + 2 > start {
                assert(is_digit(all@[at + 1]));
            }
        }
    }
    if start < 3 || n - 3 - start < 3 {
        return false;
    }
    let fits = all[start - 2] == '-' && all[start - 1] == 'v';
    proof {
        if fits {
            assert(versioned_at(name@, start - 2));
        }
    }
    fits
}

/// A timestamp with its colons turned into dashes.
pub open spec fn stamped(now: Seq<char>) -> Seq<char> {
    now.map_values(|c: char| if c == ':' { '-' } else { c })
}

/// Turn an ISO timestamp into a filename component.
///
/// Only `:` is illegal in a Windows filename, so the milliseconds survive and
/// the stamp stays fixed-width.
pub fn file_stamp(now_iso: &str) -> (r: String)
    ensures
        r@ == stamped(now_iso@),
{
    let all = chars_of(now_iso);
    let mut out = String::new();
    let mut i: usize = 0;
    while i < all.len()
        invariant
            0 <= i <= all@.len(),
            all@ == now_iso@,
            out@ == stamped(all@.take(i as int)),
        decreases all@.len() - i,
    {
        out.push(if all[i] == ':' { '-' } else { all[i] });
        i = i + 1;
        proof {
            assert(out@ =~= stamped(all@.take(i as int)));
        }
    }
    proof {
        assert(all@.take(all@.len() as int) =~= all@);
    }
    out
}

/// `count` zeros; none where the count is negative.
pub open spec fn zeros(count: int) -> Seq<char> {
    Seq::new(
        if count < 0 {
            0
        } else {
            count as nat
        },
        |i: int| '0',
    )
}

/// A version in decimal, filled up with zeros to three places, a minus sign
/// among them.
pub open spec fn three_places(version: int) -> Seq<char> {
    if version < 0 {
        seq!['-'] + zeros(2 - decimal(-version).len()) + decimal(-version)
    } else {
        zeros(3 - decimal(version).len()) + decimal(version)
    }
}

/// The name of the backup of a store at `version`.
pub open spec fn named(now: Seq<char>, version: int) -> Seq<char> {
    stamped(now) + "-v"@ + three_places(version) + ".db"@
}

fn version_text(version: i64) -> (r: String)
    ensures
        r@ == three_places(version as int),
{
    let text = decimal_text(version);
    let all = chars_of(text.as_str());
    let mut out = String::new();
    let mut i: usize = 0;
    if version < 0 {
        out.push('-');
        i = 1;
    }
    let ghost sign = out@;
    let from: usize = i;
    let mut width: usize = all.len();
    while width < 3
        invariant
            all@.len() <= width,
            all@.len() < 3 ==> width <= 3,
            all@.len() >= 3 ==> width == all@.len(),
            out@ == sign + zeros(width - all@.len()),
        decreases 3 - width,
    {
        out.push('0');
        width = width + 1;
        proof {
            assert(out@ =~= sign + zeros(width - all@.len()));
        }
    }
    let ghost head = out@;
    while i < all.len()
        invariant
            from <= i <= all@.len(),
            from <= 1,
            out@ == head + all@.subrange(from as int, i as int),
        decreases all@.len() - i,
    {
        out.push(all[i]);
        i = i + 1;
        proof {
            assert(out@ =~= head + all@.subrange(from as int, i as int));
        }
    }
    proof {
        if version < 0 {
            assert(all@ == seq!['-'] + decimal_nat((-version) as nat));
            assert(all@.subrange(1, all@.len() as int) =~= decimal(-version));
            assert(zeros(3 - all@.len()) =~= zeros(2 - decimal(-version).len()));
        } else {
            assert(all@.subrange(0, all@.len() as int) =~= decimal(version as int));
            assert(head =~= zeros(3 - all@.len()));
        }
        assert(out@ =~= three_places(version as int));
    }
    out
}

/// The name of the backup of a store at `version`.
pub fn backup_name(now_iso: &str, version: i64) -> (r: String)
    ensures
        r@ == named(now_iso@, version as int),
{
    let stamp = file_stamp(now_iso);
    let number = version_text(version);
    let head = join3(stamp.as_str(), "-v", number.as_str());
    join2(head.as_str(), ".db")
}

/// The working name a backup is written to before it is renamed into place,
/// made of the process number.
pub fn partial_name(process: u32) -> (r: String)
    ensures
        r@ == ".partial-"@ + decimal(process as int) + ".db"@,
{
    let number = decimal_text(process as i64);
    join3(".partial-", number.as_str(), ".db")
}

/// Directory Store Backups are written to, beside the database; nothing where
/// the database has no file.
pub fn backup_dir(database: Option<&str>) -> (r: Option<String>)
    ensures
        match r {
            Some(dir) => {
                &&& database is Some
                &&& database->0@.len() > 0
                &&& outer(database->0@) is Some
                &&& dir@ == below(outer(database->0@)->0, "backups"@)
            },
            None => database is None || database->0@.len() == 0 || outer(database->0@) is None,
        },
{
    match database {
        None => None,
        Some(path) => {
            if path.is_empty() {
                return None;
            }
            match parent(path) {
                None => None,
                Some(dir) => Some(join(dir.as_str(), "backups")),
            }
        },
    }
}

/// The order of names.
pub open spec fn by_name() -> spec_fn(Seq<char>, Seq<char>) -> bool {
    |a: Seq<char>, b: Seq<char>| text_le(a, b)
}

/// Names are totally ordered.
pub proof fn lemma_by_name_total()
    ensures
        total_ordering(by_name()),
{
    assert forall|a: Seq<char>| #[trigger] by_name()(a, a) by {
        lemma_text_le_total(a, a);
    }
    assert forall|a: Seq<char>, b: Seq<char>|
        #[trigger] by_name()(a, b) && #[trigger] by_name()(b, a) implies a == b by {
        lemma_text_le_antisym(a, b);
    }
    assert forall|a: Seq<char>, b: Seq<char>, c: Seq<char>|
        #[trigger] by_name()(a, b) && #[trigger] by_name()(b, c) implies by_name()(a, c) by {
        lemma_text_le_trans(a, b, c);
    }
    assert forall|a: Seq<char>, b: Seq<char>|
        #[trigger] by_name()(a, b) || #[trigger] by_name()(b, a) by {
        lemma_text_le_total(a, b);
    }
}

/// Texts in the order of their names.
pub open spec fn in_order(all: Seq<Seq<char>>) -> Seq<Seq<char>> {
    all.sort_by(by_name())
}

proof fn lemma_insert_sorted(all: Seq<Seq<char>>, at: int, name: Seq<char>)
    requires
        sorted_by(all, by_name()),
        0 <= at <= all.len(),
        at > 0 ==> text_le(all[at - 1], name),
        at < all.len() ==> text_le(name, all[at]),
    ensures
        sorted_by(all.insert(at, name), by_name()),
        all.insert(at, name).to_multiset() == all.to_multiset().insert(name),
{
    vstd::seq_lib::to_multiset_insert(all, at, name);
    let more = all.insert(at, name);
    assert forall|i: int, j: int| 0 <= i < j < more.len() implies #[trigger] by_name()(
        more[i],
        more[j],
    ) by {
        let a = if i < at { i } else { i - 1 };
        let b = if j < at { j } else { j - 1 };
        if i != at && j != at {
            assert(by_name()(all[a], all[b]));
        } else if j == at {
            if i < at - 1 {
                assert(by_name()(all[i], all[at - 1]));
                lemma_text_le_trans(all[i], all[at - 1], name);
            }
        } else {
            if j > at + 1 {
                assert(by_name()(all[at], all[j - 1]));
                lemma_text_le_trans(name, all[at], all[j - 1]);
            }
        }
    }
}

/// Texts put in order.
fn sort_names(all: Vec<String>) -> (r: Vec<String>)
    ensures
        spread(r@) == in_order(spread(all@)),
{
    let mut out: Vec<String> = Vec::new();
    let mut i: usize = 0;
    let ghost source = spread(all@);
    proof {
        assert(source.take(0) =~= spread(out@));
    }
    while i < all.len()
        invariant
            0 <= i <= all@.len(),
            source == spread(all@),
            sorted_by(spread(out@), by_name()),
            spread(out@).to_multiset() == source.take(i as int).to_multiset(),
        decreases all@.len() - i,
    {
        let name = all[i].as_str().to_owned();
        let ghost sorted = spread(out@);
        let mut at: usize = out.len();
        while at > 0 && !not_after(out[at - 1].as_str(), name.as_str())
            invariant
                0 <= at <= out@.len(),
                at < out@.len() ==> text_le(name@, out@[at as int]@),
            decreases at,
        {
            proof {
                lemma_text_le_total(name@, out@[at - 1]@);
            }
            at = at - 1;
        }
        proof {
            lemma_insert_sorted(sorted, at as int, name@);
        }
        let ghost text = name@;
        out.insert(at, name);
        proof {
            assert(spread(out@) =~= sorted.insert(at as int, text));
            assert(source.take(i + 1) =~= source.take(i as int).push(source[i as int]));
            vstd::seq_lib::to_multiset_build(source.take(i as int), source[i as int]);
        }
        i = i + 1;
    }
    proof {
        lemma_by_name_total();
        assert(source.take(all@.len() as int) =~= source);
        source.lemma_sort_by_ensures(by_name());
        vstd::seq_lib::lemma_sorted_unique(spread(out@), in_order(source), by_name());
    }
    out
}

/// Whether a file is one that a prune may delete: a Store Backup other than
/// the one just written.
pub open spec fn expendable(keep: Seq<char>) -> spec_fn(Seq<char>) -> bool {
    |name: Seq<char>| name != keep && backup_named(name)
}

/// The files that a prune deletes from a directory that holds `files`: of the
/// expendable ones all but the newest, one less than survive in all.
pub open spec fn pruned(files: Seq<Seq<char>>, keep: Seq<char>) -> Seq<Seq<char>> {
    let found = files.filter(expendable(keep));
    if found.len() <= BACKUPS_KEPT - 1 {
        Seq::empty()
    } else {
        in_order(found).take(found.len() - (BACKUPS_KEPT - 1))
    }
}

/// Which files to delete so that only the newest [`BACKUPS_KEPT`] Store Backups
/// are left, never touching `keep`.
///
/// `keep` is the backup protecting the migration about to run. Age is the
/// caller's clock: a clock that jumped backwards would otherwise sort the fresh
/// backup among the oldest.
pub fn prune(files: &Vec<String>, keep: &str) -> (r: Vec<String>)
    ensures
        spread(r@) == pruned(spread(files@), keep@),
{
    let mut found: Vec<String> = Vec::new();
    let mut i: usize = 0;
    let ghost all = spread(files@);
    let ghost cond = expendable(keep@);
    proof {
        lemma_filter_none(all, cond);
        assert(spread(found@) =~= Seq::<Seq<char>>::empty());
    }
    while i < files.len()
        invariant
            0 <= i <= files@.len(),
            all == spread(files@),
            cond == expendable(keep@),
            spread(found@) == all.take(i as int).filter(cond),
        decreases files@.len() - i,
    {
        let name = files[i].as_str();
        proof {
            lemma_filter_step(all, cond, i as int);
            assert(all[i as int] == name@);
        }
        let ghost before = spread(found@);
        if !same_text(name, keep) && is_backup_name(name) {
            found.push(name.to_owned());
            proof {
                assert(spread(found@) =~= before.push(name@));
            }
        }
        i = i + 1;
    }
    proof {
        lemma_filter_all(all, cond);
    }
    let survivors: usize = BACKUPS_KEPT - 1;
    let ghost kept = spread(found@);
    if found.len() <= survivors {
        return Vec::new();
    }
    let ordered = sort_names(found);
    proof {
        lemma_by_name_total();
        kept.lemma_sort_by_ensures(by_name());
        kept.to_multiset_ensures();
        in_order(kept).to_multiset_ensures();
        assert(in_order(kept).len() == kept.len());
    }
    let last: usize = ordered.len() - survivors;
    let mut gone: Vec<String> = Vec::new();
    let mut k: usize = 0;
    while k < last
        invariant
            0 <= k <= last <= ordered@.len(),
            spread(gone@) == spread(ordered@).take(k as int),
        decreases last - k,
    {
        let ghost before = spread(gone@);
        gone.push(ordered[k].as_str().to_owned());
        k = k + 1;
        proof {
            assert(spread(gone@) =~= before.push(ordered@[k - 1]@));
            assert(spread(gone@) =~= spread(ordered@).take(k as int));
        }
    }
    gone
}

/// What a prune deletes is a Store Backup from the directory, and never the
/// one to keep.
pub proof fn law_prune_deletes_old_backups_only(files: Seq<Seq<char>>, keep: Seq<char>)
    ensures
        forall|i: int|
            #![trigger pruned(files, keep)[i]]
            0 <= i < pruned(files, keep).len() ==> {
                &&& files.contains(pruned(files, keep)[i])
                &&& backup_named(pruned(files, keep)[i])
                &&& pruned(files, keep)[i] != keep
            },
{
    let cond = expendable(keep);
    let found = files.filter(cond);
    lemma_filter_contains(files, cond);
    lemma_by_name_total();
    found.lemma_sort_by_ensures(by_name());
    found.to_multiset_ensures();
    in_order(found).to_multiset_ensures();
    let gone = pruned(files, keep);
    assert forall|i: int| 0 <= i < gone.len() implies files.contains(#[trigger] gone[i])
        && backup_named(gone[i]) && gone[i] != keep by {
        assert(in_order(found).contains(in_order(found)[i]));
        assert(found.contains(gone[i]));
        let j = choose|j: int| 0 <= j < found.len() && found[j] == gone[i];
        assert(cond(found[j]));
    }
}

/// After a prune at most [`BACKUPS_KEPT`] backups are left, the one to keep
/// among them.
pub proof fn law_prune_bounds_the_backups(files: Seq<Seq<char>>, keep: Seq<char>)
    ensures
        files.filter(expendable(keep)).len() - pruned(files, keep).len() < BACKUPS_KEPT,
        files.filter(expendable(keep)).len() < BACKUPS_KEPT ==> pruned(files, keep).len() == 0,
{
    let found = files.filter(expendable(keep));
    lemma_by_name_total();
    found.lemma_sort_by_ensures(by_name());
    found.to_multiset_ensures();
    in_order(found).to_multiset_ensures();
}

/// A prune deletes the oldest: whatever it deletes sorts no later than
/// whatever it leaves.
pub proof fn law_prune_deletes_the_oldest(files: Seq<Seq<char>>, keep: Seq<char>, i: int, j: int)
    requires
        0 <= i < pruned(files, keep).len(),
        pruned(files, keep).len() <= j < in_order(files.filter(expendable(keep))).len(),
    ensures
        text_le(pruned(files, keep)[i], in_order(files.filter(expendable(keep)))[j]),
{
    let found = files.filter(expendable(keep));
    lemma_by_name_total();
    found.lemma_sort_by_ensures(by_name());
    found.to_multiset_ensures();
    in_order(found).to_multiset_ensures();
    assert(pruned(files, keep)[i] == in_order(found)[i]);
    assert(by_name()(in_order(found)[i], in_order(found)[j]));
}

proof fn lemma_decimal_digits(n: nat)
    ensures
        decimal_nat(n).len() > 0,
        forall|i: int| 0 <= i < decimal_nat(n).len() ==> is_digit(#[trigger] decimal_nat(n)[i]),
    decreases n,
{
    if n >= 10 {
        lemma_decimal_digits(n / 10);
    }
}

/// The name given to a backup is recognised as a backup's.
pub proof fn law_a_written_backup_is_recognised(now: Seq<char>, version: int)
    requires
        now.len() > 0,
        version >= 0,
    ensures
        backup_named(named(now, version)),
{
    reveal_strlit("-v");
    reveal_strlit(".db");
    lemma_decimal_digits(version as nat);
    let name = named(now, version);
    let at = now.len() as int;
    let number = three_places(version);
    assert(number.len() >= 3);
    assert(name.len() == at + 2 + number.len() + 3);
    assert(name[at] == "-v"@[0]);
    assert(name[at + 1] == "-v"@[1]);
    assert forall|i: int| at + 2 <= i < name.len() - 3 implies is_digit(#[trigger] name[i]) by {
        let k = i - at - 2;
        assert(name[i] == number[k]);
        let pad = zeros(3 - decimal(version).len());
        if k < pad.len() {
            assert(number[k] == pad[k]);
        } else {
            assert(number[k] == decimal_nat(version as nat)[k - pad.len()]);
        }
    }
    assert(name.skip(name.len() - 3) =~= ".db"@);
    assert(versioned_at(name, at));
}

} // verus!
