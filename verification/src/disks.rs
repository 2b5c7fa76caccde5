//! Choosing the disks the dashboard shows: the three largest volumes of at
//! least 1 GB, labelled by the first two characters of their mount point
//! ("C:") and listed in label order.
use vstd::prelude::*;

verus! {

/// What the operating system reports of one mounted volume.
pub struct DiskReading {
    /// Where the volume is mounted, such as `C:\`.
    pub mount_point: String,
    /// Size of the volume in bytes.
    pub total_space: u64,
    /// Free space on the volume in bytes.
    pub available_space: u64,
}

/// A volume as the dashboard shows it.
pub struct DiskUsage {
    /// The first two characters of the mount point.
    pub label: String,
    /// Bytes in use: the size less the free space, and never below zero.
    pub used: u64,
    /// Size of the volume in bytes.
    pub total: u64,
}

/// A disk reading as plain values: (mount point, size, free space).
pub type ReadingView = (Seq<char>, u64, u64);

/// A shown disk as plain values: (label, used bytes, size).
pub type UsageView = (Seq<char>, u64, u64);

impl View for DiskReading {
    type V = ReadingView;

    open spec fn view(&self) -> ReadingView {
        (self.mount_point@, self.total_space, self.available_space)
    }
}

impl View for DiskUsage {
    type V = UsageView;

    open spec fn view(&self) -> UsageView {
        (self.label@, self.used, self.total)
    }
}

/// The views of a sequence of readings.
pub open spec fn readings_view(rs: Seq<DiskReading>) -> Seq<ReadingView> {
    rs.map_values(|r: DiskReading| r@)
}

/// The views of a sequence of shown disks.
pub open spec fn usages_view(us: Seq<DiskUsage>) -> Seq<UsageView> {
    us.map_values(|u: DiskUsage| u@)
}

/// Volumes smaller than this many bytes (1 GB) are not shown.
pub const MIN_DISK_BYTES: u64 = 1_000_000_000;

/// How many disks the dashboard shows at most.
pub const MAX_SHOWN_DISKS: usize = 3;

/// The label of a mount point: its first two characters (all of it when it
/// is shorter).
pub open spec fn label_of(mount: Seq<char>) -> Seq<char> {
    if mount.len() < 2 {
        mount
    } else {
        mount.take(2)
    }
}

/// The shown form of a reading.
pub open spec fn usage_of(r: ReadingView) -> UsageView {
    (label_of(r.0), if r.1 >= r.2 { (r.1 - r.2) as u64 } else { 0 }, r.1)
}

/// The readings large enough to be shown, in their original order, in
/// shown form.
pub open spec fn listed(rs: Seq<ReadingView>) -> Seq<UsageView>
    decreases rs.len(),
{
    if rs.len() == 0 {
        Seq::empty()
    } else if rs.last().1 >= MIN_DISK_BYTES {
        listed(rs.drop_last()).push(usage_of(rs.last()))
    } else {
        listed(rs.drop_last())
    }
}

/// `a` orders strictly before `b` when compared character by character
/// from position `i` on, by code point, a proper prefix first. This is the
/// order of `String` comparison, since UTF-8 preserves code-point order.
pub open spec fn label_lt_from(a: Seq<char>, b: Seq<char>, i: nat) -> bool
    decreases a.len() - i,
{
    if i >= a.len() {
        i < b.len()
    } else if i >= b.len() {
        false
    } else if a[i as int] != b[i as int] {
        (a[i as int] as u32) < (b[i as int] as u32)
    } else {
        label_lt_from(a, b, i + 1)
    }
}

/// The strict lexicographic order of labels.
pub open spec fn label_lt(a: Seq<char>, b: Seq<char>) -> bool {
    label_lt_from(a, b, 0)
}

/// `e` placed into `s` before the first element whose label orders after
/// `e`'s, so after every element with an equal label.
pub open spec fn insert_by_label(s: Seq<UsageView>, e: UsageView) -> Seq<UsageView>
    decreases s.len(),
{
    if s.len() == 0 {
        seq![e]
    } else if label_lt(e.0, s[0].0) {
        seq![e] + s
    } else {
        seq![s[0]] + insert_by_label(s.drop_first(), e)
    }
}

/// The stable sort of `s` by label: elements with equal labels keep their
/// relative order.
pub open spec fn sort_by_label(s: Seq<UsageView>) -> Seq<UsageView>
    decreases s.len(),
{
    if s.len() == 0 {
        s
    } else {
        insert_by_label(sort_by_label(s.drop_last()), s.last())
    }
}

/// `e` placed into `s` before the first element of smaller size, so after
/// every element at least as large.
pub open spec fn insert_by_size(s: Seq<UsageView>, e: UsageView) -> Seq<UsageView>
    decreases s.len(),
{
    if s.len() == 0 {
        seq![e]
    } else if e.2 > s[0].2 {
        seq![e] + s
    } else {
        seq![s[0]] + insert_by_size(s.drop_first(), e)
    }
}

/// The stable sort of `s` by size, largest first: volumes of equal size
/// keep their relative order.
pub open spec fn sort_by_size(s: Seq<UsageView>) -> Seq<UsageView>
    decreases s.len(),
{
    if s.len() == 0 {
        s
    } else {
        insert_by_size(sort_by_size(s.drop_last()), s.last())
    }
}

/// The (up to) three largest of `s`; among volumes of equal size the
/// earlier ones are preferred.
pub open spec fn largest(s: Seq<UsageView>) -> Seq<UsageView> {
    let b = sort_by_size(s);
    if b.len() > MAX_SHOWN_DISKS {
        b.take(MAX_SHOWN_DISKS as int)
    } else {
        b
    }
}

/// The disks shown for the readings `rs`: the three largest listed ones,
/// in label order.
pub open spec fn shown(rs: Seq<ReadingView>) -> Seq<UsageView> {
    sort_by_label(largest(listed(rs)))
}

/// Sizes are in non-increasing order.
pub open spec fn sorted_by_size(s: Seq<UsageView>) -> bool {
    forall|i: int, j: int| 0 <= i < j < s.len() ==> #[trigger] s[j].2 <= #[trigger] s[i].2
}

/// Labels are in non-decreasing order.
pub open spec fn sorted_by_label(s: Seq<UsageView>) -> bool {
    forall|i: int, j: int| 0 <= i < j < s.len() ==> !label_lt(#[trigger] s[j].0, #[trigger] s[i].0)
}

/// Compares two labels in the order of `label_lt`.
fn label_less(a: &String, b: &String) -> (r: bool)
    ensures
        r == label_lt(a@, b@),
{
    let sa = a.as_str();
    let sb = b.as_str();
    let la = sa.unicode_len();
    let lb = sb.unicode_len();
    let mut i: usize = 0;
    while i < la && i < lb
        invariant
            la == a@.len(),
            lb == b@.len(),
            sa@ == a@,
            sb@ == b@,
            i <= la,
            i <= lb,
            label_lt(a@, b@) == label_lt_from(a@, b@, i as nat),
        decreases la - i,
    {
        let ca = sa.get_char(i);
        let cb = sb.get_char(i);
        if ca != cb {
            return (ca as u32) < (cb as u32);
        }
        i = i + 1;
    }
    la <= i && i < lb
}

/// The shown form of one reading.
fn usage_from(r: &DiskReading) -> (u: DiskUsage)
    ensures
        u@ == usage_of(r@),
{
    let s = r.mount_point.as_str();
    let n = s.unicode_len();
    let k = if n < 2 { n } else { 2 };
    let label = String::from_str(s.substring_char(0, k));
    assert(s@.subrange(0, k as int) =~= label_of(r.mount_point@));
    DiskUsage { label, used: r.total_space.saturating_sub(r.available_space), total: r.total_space }
}

proof fn lemma_insert_at(s: Seq<UsageView>, e: UsageView, j: int)
    requires
        0 <= j <= s.len(),
        forall|k: int| 0 <= k < j ==> !label_lt(e.0, #[trigger] s[k].0),
        j < s.len() ==> label_lt(e.0, s[j].0),
    ensures
        insert_by_label(s, e) == s.insert(j, e),
    decreases j,
{
    if s.len() == 0 {
        assert(s.insert(j, e) =~= seq![e]);
    } else if j == 0 {
        assert(s.insert(j, e) =~= seq![e] + s);
    } else {
        let t = s.drop_first();
        assert forall|k: int| 0 <= k < j - 1 implies !label_lt(e.0, #[trigger] t[k].0) by {
            assert(t[k] == s[k + 1]);
        }
        lemma_insert_at(t, e, j - 1);
        assert(s.insert(j, e) =~= seq![s[0]] + t.insert(j - 1, e));
    }
}

/// Places `e` into `v` as `insert_by_label` does.
fn insert_sorted(v: &mut Vec<DiskUsage>, e: DiskUsage)
    ensures
        usages_view(final(v)@) == insert_by_label(usages_view(old(v)@), e@),
{
    let mut j: usize = 0;
    while j < v.len() && !label_less(&e.label, &v[j].label)
        invariant
            j <= v.len(),
            v@ == old(v)@,
            forall|k: int| 0 <= k < j ==> !label_lt(e.label@, #[trigger] v@[k].label@),
        decreases v.len() - j,
    {
        j = j + 1;
    }
    let ghost s = usages_view(v@);
    proof {
        assert forall|k: int| 0 <= k < j implies !label_lt(e@.0, #[trigger] s[k].0) by {
            assert(s[k] == v@[k]@);
        }
        lemma_insert_at(s, e@, j as int);
    }
    v.insert(j, e);
    assert(usages_view(v@) =~= s.insert(j as int, e@));
}

proof fn lemma_insert_at_size(s: Seq<UsageView>, e: UsageView, j: int)
    requires
        0 <= j <= s.len(),
        forall|k: int| 0 <= k < j ==> e.2 <= (#[trigger] s[k]).2,
        j < s.len() ==> e.2 > s[j].2,
    ensures
        insert_by_size(s, e) == s.insert(j, e),
    decreases j,
{
    if s.len() == 0 {
        assert(s.insert(j, e) =~= seq![e]);
    } else if j == 0 {
        assert(s.insert(j, e) =~= seq![e] + s);
    } else {
        let t = s.drop_first();
        assert forall|k: int| 0 <= k < j - 1 implies e.2 <= (#[trigger] t[k]).2 by {
            assert(t[k] == s[k + 1]);
        }
        lemma_insert_at_size(t, e, j - 1);
        assert(s.insert(j, e) =~= seq![s[0]] + t.insert(j - 1, e));
    }
}

/// Places `e` into `v` as `insert_by_size` does.
fn insert_by_size_into(v: &mut Vec<DiskUsage>, e: DiskUsage)
    ensures
        usages_view(final(v)@) == insert_by_size(usages_view(old(v)@), e@),
{
    let mut j: usize = 0;
    while j < v.len() && !(e.total > v[j].total)
        invariant
            j <= v.len(),
            v@ == old(v)@,
            forall|k: int| 0 <= k < j ==> e.total <= (#[trigger] v@[k]).total,
        decreases v.len() - j,
    {
        j = j + 1;
    }
    let ghost s = usages_view(v@);
    proof {
        assert forall|k: int| 0 <= k < j implies e@.2 <= (#[trigger] s[k]).2 by {
            assert(s[k] == v@[k]@);
        }
        lemma_insert_at_size(s, e@, j as int);
    }
    v.insert(j, e);
    assert(usages_view(v@) =~= s.insert(j as int, e@));
}

/// The disks to show for the given readings: the three largest volumes of
/// at least 1 GB (the earlier of equal sizes first), labelled by the first
/// two characters of their mount point, listed in label order (volumes with
/// equal labels in the order of `largest`: larger first).
pub fn select_disks(readings: &Vec<DiskReading>) -> (res: Vec<DiskUsage>)
    ensures
        usages_view(res@) == shown(readings_view(readings@)),
{
    let ghost rs = readings_view(readings@);
    let mut by_size: Vec<DiskUsage> = Vec::new();
    let n = readings.len();
    for i in 0..n
        invariant
            n == readings@.len(),
            rs == readings_view(readings@),
            usages_view(by_size@) == sort_by_size(listed(rs.take(i as int))),
    {
        let ghost prev = rs.take(i as int);
        assert(rs.take(i + 1).drop_last() =~= prev);
        assert(rs.take(i + 1).last() == readings@[i as int]@);
        if readings[i].total_space >= MIN_DISK_BYTES {
            let u = usage_from(&readings[i]);
            insert_by_size_into(&mut by_size, u);
            assert(listed(rs.take(i + 1)).drop_last() =~= listed(prev));
        }
    }
    assert(rs.take(n as int) =~= rs);
    by_size.truncate(MAX_SHOWN_DISKS);
    let ghost top = usages_view(by_size@);
    assert(top =~= largest(listed(rs)));
    assert(top.skip(0) =~= top);
    let mut shown_disks: Vec<DiskUsage> = Vec::new();
    let mut k: usize = 0;
    while by_size.len() > 0
        invariant
            k <= top.len(),
            top.len() <= MAX_SHOWN_DISKS,
            usages_view(by_size@) == top.skip(k as int),
            usages_view(shown_disks@) == sort_by_label(top.take(k as int)),
        decreases by_size.len(),
    {
        let ghost before = by_size@;
        let e = by_size.remove(0);
        proof {
            assert(usages_view(before).len() == before.len());
            assert(top.skip(k as int).len() > 0);
            assert(e@ == top.skip(k as int)[0]);
            assert(top.take(k + 1).drop_last() =~= top.take(k as int));
            assert(top.take(k + 1).last() == top[k as int]);
            assert(by_size@ == before.remove(0));
            assert forall|m: int| 0 <= m < by_size@.len() implies #[trigger] usages_view(by_size@)[m] == top.skip(k + 1)[m] by {
                assert(by_size@[m] == before[m + 1]);
                assert(usages_view(before)[m + 1] == top.skip(k as int)[m + 1]);
            }
            assert(usages_view(by_size@) =~= top.skip(k + 1));
        }
        insert_sorted(&mut shown_disks, e);
        k = k + 1;
    }
    assert(top.take(k as int) =~= top);
    shown_disks
}

proof fn lemma_label_lt_from_asym(a: Seq<char>, b: Seq<char>, i: nat)
    ensures
        label_lt_from(a, b, i) ==> !label_lt_from(b, a, i),
    decreases a.len() - i,
{
    if i < a.len() && i < b.len() && a[i as int] == b[i as int] {
        lemma_label_lt_from_asym(a, b, i + 1);
    }
}

proof fn lemma_label_lt_from_trans(a: Seq<char>, b: Seq<char>, c: Seq<char>, i: nat)
    requires
        label_lt_from(a, b, i),
        label_lt_from(b, c, i),
    ensures
        label_lt_from(a, c, i),
    decreases a.len() - i,
{
    if i < a.len() && a[i as int] == b[i as int] && b[i as int] == c[i as int] {
        lemma_label_lt_from_trans(a, b, c, i + 1);
    }
}

/// No label orders strictly before itself.
pub proof fn lemma_label_lt_irreflexive(a: Seq<char>)
    ensures
        !label_lt(a, a),
{
    lemma_label_lt_from_asym(a, a, 0);
}

/// Two labels never order strictly before each other.
pub proof fn lemma_label_lt_asymmetric(a: Seq<char>, b: Seq<char>)
    ensures
        label_lt(a, b) ==> !label_lt(b, a),
{
    lemma_label_lt_from_asym(a, b, 0);
}

/// The label order is transitive.
pub proof fn lemma_label_lt_transitive(a: Seq<char>, b: Seq<char>, c: Seq<char>)
    requires
        label_lt(a, b),
        label_lt(b, c),
    ensures
        label_lt(a, c),
{
    lemma_label_lt_from_trans(a, b, c, 0);
}

/// Where `insert_by_label` places its element.
spec fn insert_pos(s: Seq<UsageView>, e: UsageView) -> int
    decreases s.len(),
{
    if s.len() == 0 || label_lt(e.0, s[0].0) {
        0
    } else {
        1 + insert_pos(s.drop_first(), e)
    }
}

proof fn lemma_insert_pos(s: Seq<UsageView>, e: UsageView)
    ensures
        0 <= insert_pos(s, e) <= s.len(),
        forall|k: int| 0 <= k < insert_pos(s, e) ==> !label_lt(e.0, #[trigger] s[k].0),
        insert_pos(s, e) < s.len() ==> label_lt(e.0, s[insert_pos(s, e)].0),
        insert_by_label(s, e) == s.insert(insert_pos(s, e), e),
    decreases s.len(),
{
    let p = insert_pos(s, e);
    if s.len() != 0 && !label_lt(e.0, s[0].0) {
        let t = s.drop_first();
        lemma_insert_pos(t, e);
        assert forall|k: int| 0 <= k < p implies !label_lt(e.0, #[trigger] s[k].0) by {
            if k > 0 {
                assert(s[k] == t[k - 1]);
            }
        }
    }
    lemma_insert_at(s, e, p);
}

proof fn lemma_insert_sorted(s: Seq<UsageView>, e: UsageView)
    requires
        sorted_by_label(s),
    ensures
        sorted_by_label(insert_by_label(s, e)),
        insert_by_label(s, e).to_multiset() == s.to_multiset().insert(e),
        insert_by_label(s, e).len() == s.len() + 1,
{
    lemma_insert_pos(s, e);
    let p = insert_pos(s, e);
    let r = insert_by_label(s, e);
    vstd::seq_lib::to_multiset_insert(s, p, e);
    assert forall|i: int, j: int| 0 <= i < j < r.len() implies !label_lt(#[trigger] r[j].0, #[trigger] r[i].0) by {
        if j < p {
            assert(r[i] == s[i] && r[j] == s[j]);
        } else if j == p {
            assert(r[j] == e && r[i] == s[i]);
            lemma_label_lt_asymmetric(s[i].0, e.0);
            if label_lt(e.0, s[i].0) {
                assert(!label_lt(e.0, s[i].0));
            }
        } else if i < p {
            assert(r[i] == s[i] && r[j] == s[j - 1]);
        } else if i == p {
            assert(r[i] == e && r[j] == s[j - 1]);
            // e orders before s[p], which does not order after s[j - 1]
            lemma_label_lt_irreflexive(s[p].0);
            if label_lt(s[j - 1].0, e.0) {
                lemma_label_lt_transitive(s[j - 1].0, e.0, s[p].0);
                assert(j - 1 > p);
            }
        } else {
            assert(r[i] == s[i - 1] && r[j] == s[j - 1]);
        }
    }
}

/// Sorting by label orders the labels and neither loses nor adds a disk.
pub proof fn lemma_sort_by_label_sorted(s: Seq<UsageView>)
    ensures
        sorted_by_label(sort_by_label(s)),
        sort_by_label(s).to_multiset() == s.to_multiset(),
        sort_by_label(s).len() == s.len(),
    decreases s.len(),
{
    broadcast use vstd::seq_lib::group_to_multiset_ensures;
    if s.len() > 0 {
        let t = s.drop_last();
        lemma_sort_by_label_sorted(t);
        lemma_insert_sorted(sort_by_label(t), s.last());
        assert(s =~= t.push(s.last()));
    }
}

/// The labels equal to `l`.
pub open spec fn has_label(l: Seq<char>) -> spec_fn(UsageView) -> bool {
    |u: UsageView| u.0 == l
}

proof fn lemma_insert_stable(s: Seq<UsageView>, e: UsageView, l: Seq<char>)
    requires
        sorted_by_label(s),
    ensures
        insert_by_label(s, e).filter(has_label(l)) == if e.0 == l {
            s.filter(has_label(l)).push(e)
        } else {
            s.filter(has_label(l))
        },
{
    broadcast use Seq::filter_distributes_over_add;
    lemma_insert_pos(s, e);
    let p = insert_pos(s, e);
    let pred = has_label(l);
    let front = s.take(p);
    let back = s.skip(p);
    assert(s =~= front + back);
    assert(s.insert(p, e) =~= front + seq![e] + back);
    reveal_with_fuel(Seq::filter, 2);
    assert(seq![e].filter(pred) == if e.0 == l { seq![e] } else { Seq::<UsageView>::empty() }) by {
        assert(seq![e].drop_last() =~= Seq::<UsageView>::empty());
    }
    if e.0 == l {
        assert forall|k: int| 0 <= k < back.len() implies !pred(#[trigger] back[k]) by {
            assert(back[k] == s[p + k]);
            if back[k].0 == l {
                // back[k] would order before s[p], which does not order after it
                assert(label_lt(e.0, s[p].0));
                if k > 0 {
                    assert(!label_lt(s[p + k].0, s[p].0));
                } else {
                    lemma_label_lt_irreflexive(e.0);
                }
            }
        }
        back.lemma_all_neg_filter_empty(pred);
        assert(back.filter(pred) =~= Seq::<UsageView>::empty());
        assert(front.filter(pred) + seq![e] + back.filter(pred) =~= (front.filter(pred) + back.filter(pred)).push(e));
    } else {
        assert(front.filter(pred) + Seq::<UsageView>::empty() + back.filter(pred) =~= front.filter(pred) + back.filter(pred));
    }
}

/// Sorting by label is stable: the disks with any one label come out in the
/// order in which they went in.
pub proof fn lemma_sort_by_label_stable(s: Seq<UsageView>, l: Seq<char>)
    ensures
        sort_by_label(s).filter(has_label(l)) == s.filter(has_label(l)),
    decreases s.len(),
{
    if s.len() > 0 {
        let t = s.drop_last();
        lemma_sort_by_label_stable(t, l);
        lemma_sort_by_label_sorted(t);
        lemma_insert_stable(sort_by_label(t), s.last(), l);
        reveal_with_fuel(Seq::filter, 1);
    }
}


/// A shown form is a volume of at least 1 GB with no more bytes used than
/// it holds.
pub open spec fn plausible(u: UsageView) -> bool {
    u.2 >= MIN_DISK_BYTES && u.1 <= u.2
}

proof fn lemma_listed_plausible(rs: Seq<ReadingView>)
    ensures
        forall|i: int| 0 <= i < listed(rs).len() ==> plausible(#[trigger] listed(rs)[i]),
    decreases rs.len(),
{
    if rs.len() > 0 {
        let prev = listed(rs.drop_last());
        lemma_listed_plausible(rs.drop_last());
        assert forall|i: int| 0 <= i < listed(rs).len() implies plausible(#[trigger] listed(rs)[i]) by {
            if i < prev.len() {
                assert(listed(rs)[i] == prev[i]);
            }
        }
    }
}

/// Where `insert_by_size` places its element.
spec fn insert_pos_size(s: Seq<UsageView>, e: UsageView) -> int
    decreases s.len(),
{
    if s.len() == 0 || e.2 > s[0].2 {
        0
    } else {
        1 + insert_pos_size(s.drop_first(), e)
    }
}

proof fn lemma_insert_pos_size(s: Seq<UsageView>, e: UsageView)
    ensures
        0 <= insert_pos_size(s, e) <= s.len(),
        forall|k: int| 0 <= k < insert_pos_size(s, e) ==> e.2 <= (#[trigger] s[k]).2,
        insert_pos_size(s, e) < s.len() ==> e.2 > s[insert_pos_size(s, e)].2,
        insert_by_size(s, e) == s.insert(insert_pos_size(s, e), e),
    decreases s.len(),
{
    let p = insert_pos_size(s, e);
    if s.len() != 0 && !(e.2 > s[0].2) {
        let t = s.drop_first();
        lemma_insert_pos_size(t, e);
        assert forall|k: int| 0 <= k < p implies e.2 <= (#[trigger] s[k]).2 by {
            if k > 0 {
                assert(s[k] == t[k - 1]);
            }
        }
    }
    lemma_insert_at_size(s, e, p);
}

/// Sorting by size puts larger volumes first and neither loses nor adds a
/// disk.
pub proof fn lemma_sort_by_size_sorted(s: Seq<UsageView>)
    ensures
        sorted_by_size(sort_by_size(s)),
        sort_by_size(s).to_multiset() == s.to_multiset(),
        sort_by_size(s).len() == s.len(),
    decreases s.len(),
{
    broadcast use vstd::seq_lib::group_to_multiset_ensures;
    if s.len() > 0 {
        let t = s.drop_last();
        let st = sort_by_size(t);
        let e = s.last();
        lemma_sort_by_size_sorted(t);
        lemma_insert_pos_size(st, e);
        let p = insert_pos_size(st, e);
        let r = insert_by_size(st, e);
        vstd::seq_lib::to_multiset_insert(st, p, e);
        assert(s =~= t.push(e));
        assert forall|i: int, j: int| 0 <= i < j < r.len() implies #[trigger] r[j].2 <= #[trigger] r[i].2 by {
            if j < p {
                assert(r[i] == st[i] && r[j] == st[j]);
            } else if j == p {
                assert(r[j] == e && r[i] == st[i]);
            } else if i < p {
                assert(r[i] == st[i] && r[j] == st[j - 1]);
            } else if i == p {
                assert(r[i] == e && r[j] == st[j - 1]);
                if j - 1 > p {
                    assert(st[j - 1].2 <= st[p].2);
                }
            } else {
                assert(r[i] == st[i - 1] && r[j] == st[j - 1]);
            }
        }
    }
}

/// The three largest volumes of at least 1 GB are shown, in label order:
/// at most three are shown; each is a volume of at least 1 GB whose used
/// bytes do not exceed its size; they are the first three of the volumes
/// sorted by size, so no volume left out is larger than a shown one; and
/// when fewer than three are shown, every volume of at least 1 GB is among
/// them.
pub proof fn lemma_shown_disks(rs: Seq<ReadingView>)
    ensures
        shown(rs).len() == if listed(rs).len() < MAX_SHOWN_DISKS { listed(rs).len() } else { MAX_SHOWN_DISKS as nat },
        sorted_by_label(shown(rs)),
        forall|i: int| 0 <= i < shown(rs).len() ==> plausible(#[trigger] shown(rs)[i]),
        shown(rs).to_multiset() == largest(listed(rs)).to_multiset(),
        sort_by_size(listed(rs)).to_multiset() == listed(rs).to_multiset(),
        forall|k: int, j: int|
            MAX_SHOWN_DISKS <= k < sort_by_size(listed(rs)).len() && 0 <= j < shown(rs).len()
                ==> (#[trigger] sort_by_size(listed(rs))[k]).2 <= (#[trigger] shown(rs)[j]).2,
        shown(rs).len() < MAX_SHOWN_DISKS ==> shown(rs).to_multiset() == listed(rs).to_multiset(),
{
    broadcast use vstd::seq_lib::group_to_multiset_ensures;
    let l = listed(rs);
    let b = sort_by_size(l);
    let top = largest(l);
    let sh = shown(rs);
    lemma_sort_by_size_sorted(l);
    lemma_sort_by_label_sorted(top);
    lemma_listed_plausible(rs);
    assert forall|i: int| 0 <= i < sh.len() implies plausible(#[trigger] sh[i]) by {
        assert(sh.contains(sh[i]));
        assert(top.to_multiset().count(sh[i]) > 0);
        assert(top.contains(sh[i]));
        let m = choose|m: int| 0 <= m < top.len() && top[m] == sh[i];
        assert(b[m] == top[m]);
        assert(b.contains(b[m]));
        assert(l.to_multiset().count(b[m]) > 0);
        assert(l.contains(b[m]));
    }
    assert forall|k: int, j: int|
        MAX_SHOWN_DISKS <= k < b.len() && 0 <= j < sh.len() implies (#[trigger] b[k]).2 <= (#[trigger] sh[j]).2 by {
        assert(sh.contains(sh[j]));
        assert(top.to_multiset().count(sh[j]) > 0);
        assert(top.contains(sh[j]));
        let m = choose|m: int| 0 <= m < top.len() && top[m] == sh[j];
        assert(b[m] == top[m]);
    }
    if sh.len() < MAX_SHOWN_DISKS {
        assert(top =~= b);
    }
}


proof fn lemma_listed_contains(rs: Seq<ReadingView>, i: int)
    requires
        0 <= i < rs.len(),
        rs[i].1 >= MIN_DISK_BYTES,
    ensures
        listed(rs).contains(usage_of(rs[i])),
    decreases rs.len(),
{
    let t = rs.drop_last();
    if i == rs.len() - 1 {
        assert(listed(rs).last() == usage_of(rs[i]));
        assert(listed(rs)[listed(rs).len() - 1] == usage_of(rs[i]));
    } else {
        assert(t[i] == rs[i]);
        lemma_listed_contains(t, i);
        let k = choose|k: int| 0 <= k < listed(t).len() && listed(t)[k] == usage_of(rs[i]);
        if rs.last().1 >= MIN_DISK_BYTES {
            assert(listed(rs)[k] == listed(t)[k]);
        }
    }
}

proof fn lemma_listed_source(rs: Seq<ReadingView>, j: int)
    requires
        0 <= j < listed(rs).len(),
    ensures
        exists|i: int| 0 <= i < rs.len() && rs[i].1 >= 1_000_000_000 && #[trigger] usage_of(rs[i]) == listed(rs)[j],
    decreases rs.len(),
{
    let t = rs.drop_last();
    if rs.last().1 >= MIN_DISK_BYTES && j == listed(rs).len() - 1 {
        assert(rs[rs.len() - 1] == rs.last());
    } else {
        lemma_listed_source(t, j);
        let i = choose|i: int| 0 <= i < t.len() && t[i].1 >= 1_000_000_000 && #[trigger] usage_of(t[i]) == listed(t)[j];
        assert(rs[i] == t[i]);
    }
}

/// Every volume of at least 1 GB, whatever its size above that, is a
/// candidate: each reading of at least 1 GB is shown, as
/// (its first two characters, size less free space or 0, size), unless
/// three volumes at least as large are shown instead; and every shown disk
/// is the shown form of a reading of at least 1 GB.
pub proof fn lemma_every_large_volume_considered(rs: Seq<ReadingView>)
    ensures
        forall|i: int| 0 <= i < rs.len() && rs[i].1 >= 1_000_000_000 ==> {
            shown(rs).contains((
                if rs[i].0.len() < 2 { rs[i].0 } else { rs[i].0.take(2) },
                if rs[i].1 >= rs[i].2 { (rs[i].1 - rs[i].2) as u64 } else { 0u64 },
                rs[i].1,
            )) || (shown(rs).len() == 3 && forall|j: int| 0 <= j < 3 ==> rs[i].1 <= (#[trigger] shown(rs)[j]).2)
        },
        forall|j: int| 0 <= j < shown(rs).len() ==> from_large_reading(rs, #[trigger] shown(rs)[j]),
{
    broadcast use vstd::seq_lib::group_to_multiset_ensures;
    let l = listed(rs);
    let b = sort_by_size(l);
    let top = largest(l);
    let sh = shown(rs);
    lemma_shown_disks(rs);
    lemma_sort_by_label_sorted(top);
    assert forall|i: int| 0 <= i < rs.len() && rs[i].1 >= 1_000_000_000 implies {
        shown(rs).contains((
            if rs[i].0.len() < 2 { rs[i].0 } else { rs[i].0.take(2) },
            if rs[i].1 >= rs[i].2 { (rs[i].1 - rs[i].2) as u64 } else { 0u64 },
            rs[i].1,
        )) || (shown(rs).len() == 3 && forall|j: int| 0 <= j < 3 ==> rs[i].1 <= (#[trigger] shown(rs)[j]).2)
    } by {
        let u = usage_of(rs[i]);
        lemma_listed_contains(rs, i);
        assert(l.to_multiset().count(u) > 0);
        assert(b.contains(u));
        let m = choose|m: int| 0 <= m < b.len() && b[m] == u;
        if m < MAX_SHOWN_DISKS {
            assert(top[m] == u);
            assert(top.contains(u));
            assert(sh.to_multiset().count(u) > 0);
            assert(sh.contains(u));
        } else {
            assert forall|j: int| 0 <= j < 3 implies rs[i].1 <= (#[trigger] shown(rs)[j]).2 by {
                assert(b[m].2 <= sh[j].2);
            }
        }
    }
    lemma_shown_sources(rs);
}

/// `u` is the shown form of some reading of at least 1 GB: its first two
/// characters, its size less its free space (or 0), and its size.
pub open spec fn from_large_reading(rs: Seq<ReadingView>, u: UsageView) -> bool {
    exists|i: int| 0 <= i < rs.len() && rs[i].1 >= 1_000_000_000 && u == (
        if rs[i].0.len() < 2 { rs[i].0 } else { rs[i].0.take(2) },
        if rs[i].1 >= rs[i].2 { (rs[i].1 - rs[i].2) as u64 } else { 0u64 },
        rs[i].1,
    )
}

proof fn lemma_shown_sources(rs: Seq<ReadingView>)
    ensures
        forall|j: int| 0 <= j < shown(rs).len() ==> from_large_reading(rs, #[trigger] shown(rs)[j]),
{
    broadcast use vstd::seq_lib::group_to_multiset_ensures;
    let l = listed(rs);
    let b = sort_by_size(l);
    let top = largest(l);
    let sh = shown(rs);
    lemma_shown_disks(rs);
    lemma_sort_by_label_sorted(top);
    assert forall|j: int| 0 <= j < shown(rs).len() implies from_large_reading(rs, #[trigger] shown(rs)[j]) by {
        assert(sh.contains(sh[j]));
        assert(top.to_multiset().count(sh[j]) > 0);
        assert(top.contains(sh[j]));
        let m = choose|m: int| 0 <= m < top.len() && top[m] == sh[j];
        assert(b[m] == top[m]);
        assert(b.contains(b[m]));
        assert(l.to_multiset().count(b[m]) > 0);
        assert(l.contains(b[m]));
        let k = choose|k: int| 0 <= k < l.len() && l[k] == b[m];
        lemma_listed_source(rs, k);
        let i = choose|i: int| 0 <= i < rs.len() && rs[i].1 >= 1_000_000_000 && #[trigger] usage_of(rs[i]) == l[k];
        assert(usage_of(rs[i]) == sh[j]);
    }
}

} // verus!
