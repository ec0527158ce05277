use crate::strutil::str_eq;
use vstd::prelude::*;

verus! {

/// One group of the registry: host names, each with optional, unused
/// metadata.
#[derive(Debug, Clone)]
pub struct Child {
    pub hosts: Vec<(String, Option<String>)>,
}

/// The top-level grouping of the registry: named groups of hosts.
#[derive(Debug, Clone)]
pub struct All {
    pub children: Vec<(String, Child)>,
}

/// The provisioning system's host registry. The backing file is read and
/// written elsewhere; this model carries its contents and the idempotent
/// membership operations.
#[derive(Debug, Clone)]
pub struct Inventory {
    pub all: All,
}

/// Number of entries named `h` in one group's host list.
pub open spec fn host_count_in(s: Seq<(String, Option<String>)>, h: Seq<char>) -> nat
    decreases s.len(),
{
    if s.len() == 0 {
        0
    } else {
        host_count_in(s.drop_last(), h) + (if s.last().0@ == h {
            1nat
        } else {
            0nat
        })
    }
}

pub open spec fn child_count(c: Child, h: Seq<char>) -> nat {
    host_count_in(c.hosts@, h)
}

pub open spec fn children_count(s: Seq<(String, Child)>, h: Seq<char>) -> nat
    decreases s.len(),
{
    if s.len() == 0 {
        0
    } else {
        children_count(s.drop_last(), h) + child_count(s.last().1, h)
    }
}

/// Number of entries named `h` over the whole registry.
pub open spec fn inv_count(inv: Inventory, h: Seq<char>) -> nat {
    children_count(inv.all.children@, h)
}

pub open spec fn child_has(c: Child, h: Seq<char>) -> bool {
    exists|i: int| 0 <= i < c.hosts@.len() && (#[trigger] c.hosts@[i]).0@ == h
}

/// Some group of the registry holds host `h`.
pub open spec fn inv_has(inv: Inventory, h: Seq<char>) -> bool {
    exists|i: int|
        0 <= i < inv.all.children@.len() && child_has(
            (#[trigger] inv.all.children@[i]).1,
            h,
        )
}

/// The group named `g` holds host `h`.
pub open spec fn group_has(inv: Inventory, g: Seq<char>, h: Seq<char>) -> bool {
    exists|i: int|
        0 <= i < inv.all.children@.len() && (#[trigger] inv.all.children@[i]).0@ == g
            && child_has(inv.all.children@[i].1, h)
}

pub open spec fn child_wf(c: Child) -> bool {
    forall|i: int, j: int|
        0 <= i < j < c.hosts@.len() ==> (#[trigger] c.hosts@[i]).0@ != (
        #[trigger] c.hosts@[j]).0@
}

/// Host names are unique within each group and group names are unique in
/// the registry.
pub open spec fn inv_wf(inv: Inventory) -> bool {
    (forall|i: int, j: int|
        0 <= i < j < inv.all.children@.len() ==> (#[trigger] inv.all.children@[i]).0@ != (
        #[trigger] inv.all.children@[j]).0@) && (forall|i: int|
        0 <= i < inv.all.children@.len() ==> child_wf((#[trigger] inv.all.children@[i]).1))
}

pub proof fn lemma_host_count_pos(s: Seq<(String, Option<String>)>, h: Seq<char>)
    ensures
        (host_count_in(s, h) > 0) <==> (exists|i: int|
            0 <= i < s.len() && (#[trigger] s[i]).0@ == h),
    decreases s.len(),
{
    if s.len() > 0 {
        lemma_host_count_pos(s.drop_last(), h);
        if s.last().0@ == h {
            assert(s[s.len() - 1].0@ == h);
        }
        if host_count_in(s.drop_last(), h) > 0 {
            let i = choose|i: int| 0 <= i < s.drop_last().len() && (#[trigger] s.drop_last()[i]).0@ == h;
            assert(s[i].0@ == h);
        }
        if exists|i: int| 0 <= i < s.len() && (#[trigger] s[i]).0@ == h {
            let i = choose|i: int| 0 <= i < s.len() && (#[trigger] s[i]).0@ == h;
            if i < s.len() - 1 {
                assert(s.drop_last()[i].0@ == h);
            } else {
                assert(s.last().0@ == h);
            }
        }
    }
}

pub proof fn lemma_children_count_pos(s: Seq<(String, Child)>, h: Seq<char>)
    ensures
        (children_count(s, h) > 0) <==> (exists|i: int|
            0 <= i < s.len() && child_has((#[trigger] s[i]).1, h)),
    decreases s.len(),
{
    if s.len() > 0 {
        lemma_children_count_pos(s.drop_last(), h);
        lemma_host_count_pos(s.last().1.hosts@, h);
        if child_has(s.last().1, h) {
            assert(child_count(s.last().1, h) > 0);
            assert(child_has(s[s.len() - 1].1, h));
        }
        if children_count(s.drop_last(), h) > 0 {
            let i = choose|i: int|
                0 <= i < s.drop_last().len() && child_has((#[trigger] s.drop_last()[i]).1, h);
            assert(child_has(s[i].1, h));
        }
        if exists|i: int| 0 <= i < s.len() && child_has((#[trigger] s[i]).1, h) {
            let i = choose|i: int| 0 <= i < s.len() && child_has((#[trigger] s[i]).1, h);
            if i < s.len() - 1 {
                assert(child_has(s.drop_last()[i].1, h));
            } else {
                assert(child_has(s.last().1, h));
                assert(child_count(s.last().1, h) > 0);
            }
        }
    }
}

/// A host stands in the registry exactly when its entry count is positive.
pub proof fn lemma_inv_has_count(inv: Inventory, h: Seq<char>)
    ensures
        inv_has(inv, h) <==> inv_count(inv, h) > 0,
{
    lemma_children_count_pos(inv.all.children@, h);
}

proof fn lemma_children_count_update(s: Seq<(String, Child)>, i: int, e: (String, Child), h: Seq<char>)
    requires
        0 <= i < s.len(),
    ensures
        children_count(s.update(i, e), h) == children_count(s, h) - child_count(s[i].1, h)
            + child_count(e.1, h),
    decreases s.len(),
{
    let t = s.update(i, e);
    if i == s.len() - 1 {
        assert(t.drop_last() =~= s.drop_last());
        assert(t.last() == e);
    } else {
        assert(t.drop_last() =~= s.drop_last().update(i, e));
        assert(t.last() == s.last());
        lemma_children_count_update(s.drop_last(), i, e, h);
        assert(s.drop_last()[i] == s[i]);
    }
}

proof fn lemma_children_count_push(s: Seq<(String, Child)>, e: (String, Child), h: Seq<char>)
    ensures
        children_count(s.push(e), h) == children_count(s, h) + child_count(e.1, h),
{
    assert(s.push(e).drop_last() =~= s);
    assert(s.push(e).last() == e);
}

proof fn lemma_host_count_push(
    s: Seq<(String, Option<String>)>,
    e: (String, Option<String>),
    h: Seq<char>,
)
    ensures
        host_count_in(s.push(e), h) == host_count_in(s, h) + (if e.0@ == h {
            1nat
        } else {
            0nat
        }),
{
    assert(s.push(e).drop_last() =~= s);
    assert(s.push(e).last() == e);
}

fn child_contains(c: &Child, fqdn: &str) -> (r: bool)
    ensures
        r == child_has(*c, fqdn@),
{
    let mut j: usize = 0;
    while j < c.hosts.len()
        invariant
            j <= c.hosts@.len(),
            forall|k: int| 0 <= k < j ==> (#[trigger] c.hosts@[k]).0@ != fqdn@,
        decreases c.hosts@.len() - j,
    {
        if str_eq(c.hosts[j].0.as_str(), fqdn) {
            proof {
                assert(c.hosts@[j as int].0@ == fqdn@);
            }
            return true;
        }
        j = j + 1;
    }
    false
}

/// Index of the first group named `g`, or -1 when there is none.
pub open spec fn first_group_index(s: Seq<(String, Child)>, g: Seq<char>) -> int
    decreases s.len(),
{
    if s.len() == 0 {
        -1
    } else if s[0].0@ == g {
        0
    } else {
        let r = first_group_index(s.skip(1), g);
        if r < 0 {
            -1
        } else {
            r + 1
        }
    }
}

proof fn lemma_first_group_index_at(s: Seq<(String, Child)>, g: Seq<char>, i: int)
    requires
        0 <= i < s.len(),
        s[i].0@ == g,
        forall|k: int| 0 <= k < i ==> (#[trigger] s[k]).0@ != g,
    ensures
        first_group_index(s, g) == i,
    decreases i,
{
    if i > 0 {
        assert forall|k: int| 0 <= k < i - 1 implies (#[trigger] s.skip(1)[k]).0@ != g by {
            assert(s.skip(1)[k] == s[k + 1]);
        }
        assert(s.skip(1)[i - 1] == s[i]);
        lemma_first_group_index_at(s.skip(1), g, i - 1);
    }
}

proof fn lemma_first_group_index_none(s: Seq<(String, Child)>, g: Seq<char>)
    requires
        forall|k: int| 0 <= k < s.len() ==> (#[trigger] s[k]).0@ != g,
    ensures
        first_group_index(s, g) == -1,
    decreases s.len(),
{
    if s.len() > 0 {
        assert forall|k: int| 0 <= k < s.skip(1).len() implies (#[trigger] s.skip(1)[k]).0@
            != g by {
            assert(s.skip(1)[k] == s[k + 1]);
        }
        lemma_first_group_index_none(s.skip(1), g);
    }
}

/// How `add` changes the registry value: the default group's host list gets
/// `(h, None)` appended — the group itself created, with that one entry,
/// when absent — and every other group's entry is the same value as before.
pub open spec fn added_value(pre: Inventory, post: Inventory, h: Seq<char>) -> bool {
    let s = pre.all.children@;
    let t = post.all.children@;
    let i = first_group_index(s, "cloud-init"@);
    if i < 0 {
        &&& t.len() == s.len() + 1
        &&& t.drop_last() == s
        &&& t.last().0@ == "cloud-init"@
        &&& t.last().1.hosts@.len() == 1
        &&& t.last().1.hosts@[0].0@ == h
        &&& t.last().1.hosts@[0].1 is None
    } else {
        &&& t.len() == s.len()
        &&& (forall|k: int| 0 <= k < s.len() && k != i ==> t[k] == s[k])
        &&& t[i].0 == s[i].0
        &&& t[i].1.hosts@.len() == s[i].1.hosts@.len() + 1
        &&& t[i].1.hosts@.drop_last() == s[i].1.hosts@
        &&& t[i].1.hosts@.last().0@ == h
        &&& t[i].1.hosts@.last().1 is None
    }
}

fn find_group(all: &All, name: &str) -> (r: Option<usize>)
    ensures
        match r {
            Some(i) => i < all.children@.len() && all.children@[i as int].0@ == name@ && (
            forall|k: int| 0 <= k < i ==> (#[trigger] all.children@[k]).0@ != name@),
            None => forall|k: int|
                0 <= k < all.children@.len() ==> (#[trigger] all.children@[k]).0@ != name@,
        },
{
    let mut i: usize = 0;
    while i < all.children.len()
        invariant
            i <= all.children@.len(),
            forall|k: int| 0 <= k < i ==> (#[trigger] all.children@[k]).0@ != name@,
        decreases all.children@.len() - i,
    {
        if str_eq(all.children[i].0.as_str(), name) {
            return Some(i);
        }
        i = i + 1;
    }
    None
}

impl Inventory {
    /// The registry a missing backing file starts from: one empty default
    /// group.
    pub fn create_default() -> (r: Self)
        ensures
            r.all.children@.len() == 1,
            r.all.children@[0].0@ == "cloud-init"@,
            r.all.children@[0].1.hosts@.len() == 0,
            inv_wf(r),
            forall|h: Seq<char>| !inv_has(r, h),
    {
        let child = Child { hosts: Vec::new() };
        let mut children: Vec<(String, Child)> = Vec::new();
        children.push((String::from_str("cloud-init"), child));
        let r = Inventory { all: All { children } };
        proof {
            assert forall|h: Seq<char>| !inv_has(r, h) by {
                assert(forall|i: int|
                    0 <= i < r.all.children@.len() ==> r.all.children@[i].1.hosts@.len() == 0);
            }
        }
        r
    }

    /// Whether any group holds `fqdn`.
    pub fn contains(&self, fqdn: &str) -> (r: bool)
        ensures
            r == inv_has(*self, fqdn@),
    {
        let mut i: usize = 0;
        while i < self.all.children.len()
            invariant
                i <= self.all.children@.len(),
                forall|k: int|
                    0 <= k < i ==> !child_has((#[trigger] self.all.children@[k]).1, fqdn@),
            decreases self.all.children@.len() - i,
        {
            if child_contains(&self.all.children[i].1, fqdn) {
                proof {
                    assert(child_has(self.all.children@[i as int].1, fqdn@));
                }
                return true;
            }
            i = i + 1;
        }
        false
    }

    /// Inserts `fqdn`, with empty metadata, into the default group, creating
    /// the group when absent; an entry already in that group is left as it
    /// stands. Entries of every other host are untouched.
    pub fn add(&mut self, fqdn: &str)
        requires
            inv_wf(*old(self)),
        ensures
            inv_wf(*final(self)),
            inv_has(*final(self), fqdn@),
            group_has(*final(self), "cloud-init"@, fqdn@),
            group_has(*old(self), "cloud-init"@, fqdn@) ==> *final(self) == *old(self),
            !group_has(*old(self), "cloud-init"@, fqdn@) ==> inv_count(*final(self), fqdn@)
                == inv_count(*old(self), fqdn@) + 1,
            !group_has(*old(self), "cloud-init"@, fqdn@) ==> added_value(
                *old(self),
                *final(self),
                fqdn@,
            ),
            forall|h: Seq<char>|
                h != fqdn@ ==> inv_count(*final(self), h) == inv_count(*old(self), h),
            forall|h: Seq<char>|
                inv_has(*final(self), h) <==> (inv_has(*old(self), h) || h == fqdn@),
    {
        let ghost oldinv = *self;
        match find_group(&self.all, "cloud-init") {
            Some(i) => {
                if child_contains(&self.all.children[i].1, fqdn) {
                    proof {
                        assert(group_has(oldinv, "cloud-init"@, fqdn@));
                        assert(inv_has(oldinv, fqdn@));
                        assert forall|h: Seq<char>|
                            inv_has(*self, h) <==> (inv_has(oldinv, h) || h == fqdn@) by {}
                    }
                    return ;
                }
                proof {
                    // the default group is unique, so no group holds fqdn
                    if group_has(oldinv, "cloud-init"@, fqdn@) {
                        let k = choose|k: int|
                            0 <= k < oldinv.all.children@.len() && (
                            #[trigger] oldinv.all.children@[k]).0@ == "cloud-init"@ && child_has(
                                oldinv.all.children@[k].1,
                                fqdn@,
                            );
                        assert(k == i);
                    }
                }
                let (name, mut child) = self.all.children.remove(i);
                let ghost oldchild = child;
                child.hosts.push((String::from_str(fqdn), None));
                proof {
                    lemma_host_count_push(
                        oldchild.hosts@,
                        (child.hosts@.last().0, None),
                        fqdn@,
                    );
                }
                self.all.children.insert(i, (name, child));
                proof {
                    let newentry = self.all.children@[i as int];
                    assert(self.all.children@ =~= oldinv.all.children@.update(
                        i as int,
                        newentry,
                    ));
                    assert(newentry.0@ == "cloud-init"@);
                    assert(newentry.1.hosts@ =~= oldchild.hosts@.push(
                        (newentry.1.hosts@.last().0, None),
                    ));
                    assert(newentry.1.hosts@.last().0@ == fqdn@);
                    // counts under the single-group update
                    assert forall|h: Seq<char>|
                        inv_count(*self, h) == inv_count(oldinv, h) + (if h == fqdn@ {
                            1nat
                        } else {
                            0nat
                        }) by {
                        lemma_children_count_update(
                            oldinv.all.children@,
                            i as int,
                            newentry,
                            h,
                        );
                        lemma_host_count_push(
                            oldchild.hosts@,
                            (newentry.1.hosts@.last().0, None),
                            h,
                        );
                        assert(child_count(newentry.1, h) == child_count(oldinv.all.children@[i as int].1, h)
                            + (if h == fqdn@ {
                                1nat
                            } else {
                                0nat
                            }));
                    }
                    assert forall|h: Seq<char>|
                        inv_has(*self, h) <==> (inv_has(oldinv, h) || h == fqdn@) by {
                        lemma_inv_has_count(*self, h);
                        lemma_inv_has_count(oldinv, h);
                    }
                    // well-formedness: names unchanged, the one child extended
                    assert(!child_has(oldchild, fqdn@));
                    assert forall|a: int, b: int|
                        0 <= a < b < newentry.1.hosts@.len() implies (
                    #[trigger] newentry.1.hosts@[a]).0@ != (#[trigger] newentry.1.hosts@[b]).0@ by {
                        if b == newentry.1.hosts@.len() - 1 {
                            assert(newentry.1.hosts@[a] == oldchild.hosts@[a]);
                            assert(oldchild.hosts@[a].0@ != fqdn@);
                        } else {
                            assert(newentry.1.hosts@[a] == oldchild.hosts@[a]);
                            assert(newentry.1.hosts@[b] == oldchild.hosts@[b]);
                        }
                    }
                    assert(child_wf(newentry.1));
                    assert forall|a: int|
                        0 <= a < self.all.children@.len() implies child_wf(
                        (#[trigger] self.all.children@[a]).1,
                    ) by {
                        if a != i as int {
                            assert(self.all.children@[a] == oldinv.all.children@[a]);
                        }
                    }
                    assert(inv_wf(*self));
                    lemma_inv_has_count(*self, fqdn@);
                    // the entry lands in the default group, everything else
                    // is the same value
                    lemma_first_group_index_at(oldinv.all.children@, "cloud-init"@, i as int);
                    assert(newentry.1.hosts@.drop_last() =~= oldchild.hosts@);
                    assert(newentry.1.hosts@[newentry.1.hosts@.len() - 1].0@ == fqdn@);
                    assert(child_has(newentry.1, fqdn@));
                    assert(self.all.children@[i as int].0@ == "cloud-init"@);
                    assert(group_has(*self, "cloud-init"@, fqdn@));
                    assert(added_value(oldinv, *self, fqdn@));
                }
            },
            None => {
                proof {
                    if group_has(oldinv, "cloud-init"@, fqdn@) {
                        let k = choose|k: int|
                            0 <= k < oldinv.all.children@.len() && (
                            #[trigger] oldinv.all.children@[k]).0@ == "cloud-init"@ && child_has(
                                oldinv.all.children@[k].1,
                                fqdn@,
                            );
                    }
                }
                let mut hosts: Vec<(String, Option<String>)> = Vec::new();
                hosts.push((String::from_str(fqdn), None));
                let newchild = Child { hosts };
                self.all.children.push((String::from_str("cloud-init"), newchild));
                proof {
                    let newentry = self.all.children@.last();
                    assert(self.all.children@ =~= oldinv.all.children@.push(newentry));
                    assert(newentry.0@ == "cloud-init"@);
                    assert(newentry.1.hosts@.len() == 1);
                    assert(newentry.1.hosts@[0].0@ == fqdn@);
                    assert forall|h: Seq<char>|
                        inv_count(*self, h) == inv_count(oldinv, h) + (if h == fqdn@ {
                            1nat
                        } else {
                            0nat
                        }) by {
                        lemma_children_count_push(oldinv.all.children@, newentry, h);
                        assert(newentry.1.hosts@.drop_last() =~= Seq::<(
                            String,
                            Option<String>,
                        )>::empty());
                        assert(host_count_in(Seq::<(String, Option<String>)>::empty(), h) == 0);
                        assert(newentry.1.hosts@.last() == newentry.1.hosts@[0]);
                        assert(child_count(newentry.1, h) == (if h == fqdn@ {
                            1nat
                        } else {
                            0nat
                        }));
                    }
                    assert forall|h: Seq<char>|
                        inv_has(*self, h) <==> (inv_has(oldinv, h) || h == fqdn@) by {
                        lemma_inv_has_count(*self, h);
                        lemma_inv_has_count(oldinv, h);
                    }
                    assert(child_wf(newentry.1));
                    assert forall|a: int, b: int|
                        0 <= a < b < self.all.children@.len() implies (
                    #[trigger] self.all.children@[a]).0@ != (#[trigger] self.all.children@[b]).0@ by {
                        if b == self.all.children@.len() - 1 {
                            assert(self.all.children@[a] == oldinv.all.children@[a]);
                            assert(oldinv.all.children@[a].0@ != "cloud-init"@);
                        } else {
                            assert(self.all.children@[a] == oldinv.all.children@[a]);
                            assert(self.all.children@[b] == oldinv.all.children@[b]);
                        }
                    }
                    assert forall|a: int|
                        0 <= a < self.all.children@.len() implies child_wf(
                        (#[trigger] self.all.children@[a]).1,
                    ) by {
                        if a != self.all.children@.len() - 1 {
                            assert(self.all.children@[a] == oldinv.all.children@[a]);
                        }
                    }
                    assert(inv_wf(*self));
                    lemma_inv_has_count(*self, fqdn@);
                    // a fresh default group holding only the entry, appended
                    lemma_first_group_index_none(oldinv.all.children@, "cloud-init"@);
                    assert(self.all.children@.drop_last() =~= oldinv.all.children@);
                    assert(newentry.1.hosts@[0].1 is None);
                    assert(child_has(newentry.1, fqdn@));
                    assert(self.all.children@[self.all.children@.len() - 1].0@ == "cloud-init"@);
                    assert(group_has(*self, "cloud-init"@, fqdn@));
                    assert(added_value(oldinv, *self, fqdn@));
                }
            },
        }
    }
}

} // verus!
