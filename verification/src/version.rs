//! Semantic versions: a `(major, minor, patch)` triple plus an optional
//! pre-release tag, with the standard semver total order.
use vstd::prelude::*;
use vstd::string::StrSliceExecFns;
use vstd::multiset::Multiset;

verus! {

/// One dot-separated identifier of a pre-release tag. Identifiers made only
/// of digits are numeric and compare numerically; all others compare by
/// character code, and any numeric identifier orders below any textual one.
#[derive(Clone, Debug, PartialEq, Eq)]
pub enum PreIdent {
    Num(u64),
    Txt(Vec<char>),
}

/// Mathematical image of a [`PreIdent`].
#[verifier::ext_equal]
pub enum PreIdentView {
    Num(int),
    Txt(Seq<char>),
}

impl View for PreIdent {
    type V = PreIdentView;

    open spec fn view(&self) -> PreIdentView {
        match self {
            PreIdent::Num(n) => PreIdentView::Num(*n as int),
            PreIdent::Txt(s) => PreIdentView::Txt(s@),
        }
    }
}

/// A concrete semantic version. Two versions are equal only when all four
/// components agree.
#[derive(Clone, Debug, PartialEq, Eq)]
pub struct Version {
    pub major: u64,
    pub minor: u64,
    pub patch: u64,
    /// Empty means "no pre-release tag"; a tagged version orders below the
    /// untagged version with the same triple.
    pub pre: Vec<PreIdent>,
}

/// Mathematical image of a [`Version`].
#[verifier::ext_equal]
pub struct VersionView {
    pub major: int,
    pub minor: int,
    pub patch: int,
    pub pre: Seq<PreIdentView>,
}

impl View for Version {
    type V = VersionView;

    open spec fn view(&self) -> VersionView {
        VersionView {
            major: self.major as int,
            minor: self.minor as int,
            patch: self.patch as int,
            pre: self.pre@.map_values(|p: PreIdent| p@),
        }
    }
}

impl Version {
    /// A version without a pre-release tag.
    pub fn new(major: u64, minor: u64, patch: u64) -> (r: Version)
        ensures
            r@ == (VersionView {
                major: major as int,
                minor: minor as int,
                patch: patch as int,
                pre: Seq::<PreIdentView>::empty(),
            }),
    {
        let r = Version { major, minor, patch, pre: Vec::new() };
        proof {
            assert(r@.pre =~= Seq::<PreIdentView>::empty());
            assert(r@ =~= VersionView {
                major: major as int,
                minor: minor as int,
                patch: patch as int,
                pre: Seq::<PreIdentView>::empty(),
            });
        }
        r
    }

    /// A structural deep copy whose view equals the original's.
    pub fn duplicate(&self) -> (r: Version)
        ensures
            r@ == self@,
    {
        let mut pre: Vec<PreIdent> = Vec::new();
        let mut i: usize = 0;
        while i < self.pre.len()
            invariant
                i <= self.pre.len(),
                pre@.len() == i,
                forall|k: int| 0 <= k < i ==> pre@[k]@ == self.pre@[k]@,
            decreases self.pre.len() - i,
        {
            let id = match &self.pre[i] {
                PreIdent::Num(n) => PreIdent::Num(*n),
                PreIdent::Txt(s) => {
                    let mut t: Vec<char> = Vec::new();
                    let mut j: usize = 0;
                    while j < s.len()
                        invariant
                            j <= s.len(),
                            t@ =~= s@.take(j as int),
                        decreases s.len() - j,
                    {
                        t.push(s[j]);
                        j = j + 1;
                    }
                    proof {
                        assert(t@ =~= s@);
                    }
                    PreIdent::Txt(t)
                },
            };
            proof {
                assert(id@ == self.pre@[i as int]@);
            }
            pre.push(id);
            i = i + 1;
        }
        let r = Version { major: self.major, minor: self.minor, patch: self.patch, pre };
        proof {
            assert(r@.pre =~= self@.pre);
            assert(r@ =~= self@);
        }
        r
    }
}

/// The views of a sequence of versions, in order.
pub open spec fn version_views(s: Seq<Version>) -> Seq<VersionView> {
    s.map_values(|v: Version| v@)
}

/// Strict character-code order on character sequences: the usual
/// lexicographic order where a strict prefix comes first.
pub open spec fn chars_lt(a: Seq<char>, b: Seq<char>) -> bool
    decreases a.len(),
{
    if b.len() == 0 {
        false
    } else if a.len() == 0 {
        true
    } else if a[0] as u32 != b[0] as u32 {
        (a[0] as u32) < (b[0] as u32)
    } else {
        chars_lt(a.drop_first(), b.drop_first())
    }
}

/// Strict order on single pre-release identifiers: numeric before textual,
/// numeric by value, textual by character code.
pub open spec fn pre_ident_lt(a: PreIdentView, b: PreIdentView) -> bool {
    match (a, b) {
        (PreIdentView::Num(x), PreIdentView::Num(y)) => x < y,
        (PreIdentView::Num(_), PreIdentView::Txt(_)) => true,
        (PreIdentView::Txt(_), PreIdentView::Num(_)) => false,
        (PreIdentView::Txt(x), PreIdentView::Txt(y)) => chars_lt(x, y),
    }
}

/// Strict lexicographic order on identifier lists; a strict prefix has lower
/// precedence.
pub open spec fn pre_list_lt(a: Seq<PreIdentView>, b: Seq<PreIdentView>) -> bool
    decreases a.len(),
{
    if b.len() == 0 {
        false
    } else if a.len() == 0 {
        true
    } else if pre_ident_lt(a[0], b[0]) {
        true
    } else if a[0] == b[0] {
        pre_list_lt(a.drop_first(), b.drop_first())
    } else {
        false
    }
}

/// Strict order on whole pre-release tags: an empty tag (a real release)
/// orders above every non-empty tag.
pub open spec fn pre_lt(a: Seq<PreIdentView>, b: Seq<PreIdentView>) -> bool {
    if a.len() == 0 {
        false
    } else if b.len() == 0 {
        true
    } else {
        pre_list_lt(a, b)
    }
}

/// The standard semver strict order on versions.
pub open spec fn version_lt(a: VersionView, b: VersionView) -> bool {
    if a.major != b.major {
        a.major < b.major
    } else if a.minor != b.minor {
        a.minor < b.minor
    } else if a.patch != b.patch {
        a.patch < b.patch
    } else {
        pre_lt(a.pre, b.pre)
    }
}

/// Non-strict companion of [`version_lt`].
pub open spec fn version_le(a: VersionView, b: VersionView) -> bool {
    version_lt(a, b) || a == b
}

/// The character order is a strict total order: two sequences are
/// ordered one way, the other, or equal.
pub proof fn lemma_chars_lt_trichotomy(a: Seq<char>, b: Seq<char>)
    ensures
        chars_lt(a, b) || chars_lt(b, a) || a =~= b,
        chars_lt(a, b) ==> !chars_lt(b, a) && a != b,
    decreases a.len(),
{
    if b.len() == 0 || a.len() == 0 {
    } else if a[0] as u32 != b[0] as u32 {
    } else {
        assert(a[0] == b[0]) by {
            lemma_char_cast_eq(a[0], b[0]);
        }
        lemma_chars_lt_trichotomy(a.drop_first(), b.drop_first());
        if !chars_lt(a, b) && !chars_lt(b, a) {
            assert(a.drop_first() =~= b.drop_first());
            assert(a =~= seq![a[0]] + a.drop_first());
            assert(b =~= seq![b[0]] + b.drop_first());
        }
    }
}

/// The character order is transitive.
pub proof fn lemma_chars_lt_transitive(a: Seq<char>, b: Seq<char>, c: Seq<char>)
    requires
        chars_lt(a, b),
        chars_lt(b, c),
    ensures
        chars_lt(a, c),
    decreases a.len(),
{
    if a.len() == 0 {
    } else {
        // b is non-empty because chars_lt(a, b); c is non-empty because chars_lt(b, c).
        if a[0] as u32 == b[0] as u32 && b[0] as u32 == c[0] as u32 {
            lemma_chars_lt_transitive(a.drop_first(), b.drop_first(), c.drop_first());
        }
    }
}

proof fn lemma_pre_ident_trichotomy(a: PreIdentView, b: PreIdentView)
    ensures
        pre_ident_lt(a, b) || pre_ident_lt(b, a) || a == b,
        pre_ident_lt(a, b) ==> !pre_ident_lt(b, a) && a != b,
{
    match (a, b) {
        (PreIdentView::Txt(x), PreIdentView::Txt(y)) => {
            lemma_chars_lt_trichotomy(x, y);
            if !chars_lt(x, y) && !chars_lt(y, x) {
                assert(x =~= y);
            }
        },
        _ => {},
    }
}

proof fn lemma_pre_ident_transitive(a: PreIdentView, b: PreIdentView, c: PreIdentView)
    requires
        pre_ident_lt(a, b),
        pre_ident_lt(b, c),
    ensures
        pre_ident_lt(a, c),
{
    match (a, b) {
        (PreIdentView::Txt(x), PreIdentView::Txt(y)) => {
            match c {
                PreIdentView::Txt(z) => {
                    lemma_chars_lt_transitive(x, y, z);
                },
                _ => {},
            }
        },
        _ => {},
    }
}

proof fn lemma_pre_list_trichotomy(a: Seq<PreIdentView>, b: Seq<PreIdentView>)
    ensures
        pre_list_lt(a, b) || pre_list_lt(b, a) || a =~= b,
        pre_list_lt(a, b) ==> !pre_list_lt(b, a) && a != b,
    decreases a.len(),
{
    if b.len() == 0 || a.len() == 0 {
    } else {
        lemma_pre_ident_trichotomy(a[0], b[0]);
        if a[0] == b[0] {
            lemma_pre_list_trichotomy(a.drop_first(), b.drop_first());
            if !pre_list_lt(a, b) && !pre_list_lt(b, a) {
                assert(a.drop_first() =~= b.drop_first());
                assert(a =~= seq![a[0]] + a.drop_first());
                assert(b =~= seq![b[0]] + b.drop_first());
            }
        }
    }
}

proof fn lemma_pre_list_transitive(a: Seq<PreIdentView>, b: Seq<PreIdentView>, c: Seq<PreIdentView>)
    requires
        pre_list_lt(a, b),
        pre_list_lt(b, c),
    ensures
        pre_list_lt(a, c),
    decreases a.len(),
{
    if a.len() == 0 {
    } else if b.len() == 0 || c.len() == 0 {
    } else {
        lemma_pre_ident_trichotomy(a[0], b[0]);
        lemma_pre_ident_trichotomy(b[0], c[0]);
        if a[0] == b[0] && b[0] == c[0] {
            lemma_pre_list_transitive(a.drop_first(), b.drop_first(), c.drop_first());
        } else if pre_ident_lt(a[0], b[0]) && pre_ident_lt(b[0], c[0]) {
            lemma_pre_ident_transitive(a[0], b[0], c[0]);
        } else if a[0] == b[0] && pre_ident_lt(b[0], c[0]) {
        } else if pre_ident_lt(a[0], b[0]) && b[0] == c[0] {
        }
    }
}

/// The version order is total: any two versions are ordered or equal, and
/// the strict order is asymmetric.
pub proof fn lemma_version_order_total(a: VersionView, b: VersionView)
    ensures
        version_lt(a, b) || version_lt(b, a) || a =~= b,
        version_lt(a, b) ==> !version_lt(b, a) && a != b,
{
    if a.major == b.major && a.minor == b.minor && a.patch == b.patch {
        if a.pre.len() == 0 || b.pre.len() == 0 {
        } else {
            lemma_pre_list_trichotomy(a.pre, b.pre);
        }
        if !version_lt(a, b) && !version_lt(b, a) {
            if a.pre.len() != 0 && b.pre.len() != 0 {
                assert(a.pre =~= b.pre);
            } else {
                assert(a.pre =~= b.pre);
            }
            assert(a =~= b);
        }
    }
}

/// The strict version order is transitive.
pub proof fn lemma_version_order_transitive(a: VersionView, b: VersionView, c: VersionView)
    requires
        version_lt(a, b),
        version_lt(b, c),
    ensures
        version_lt(a, c),
{
    if a.major == b.major && b.major == c.major && a.minor == b.minor && b.minor == c.minor
        && a.patch == b.patch && b.patch == c.patch {
        if a.pre.len() != 0 && b.pre.len() != 0 && c.pre.len() != 0 {
            lemma_pre_list_transitive(a.pre, b.pre, c.pre);
        }
    }
}

proof fn lemma_char_cast_eq(a: char, b: char)
    requires
        a as u32 == b as u32,
    ensures
        a == b,
{
    vstd::utf8::char_u32_cast(a, a as u32);
    vstd::utf8::char_u32_cast(b, b as u32);
}

/// The non-strict version order is transitive.
pub proof fn lemma_version_le_transitive(a: VersionView, b: VersionView, c: VersionView)
    requires
        version_le(a, b),
        version_le(b, c),
    ensures
        version_le(a, c),
{
    if version_lt(a, b) && version_lt(b, c) {
        lemma_version_order_transitive(a, b, c);
    }
}

/// Exec test for [`chars_lt`].
fn chars_vec_lt(a: &Vec<char>, b: &Vec<char>) -> (r: bool)
    ensures
        r == chars_lt(a@, b@),
{
    let mut i: usize = 0;
    proof {
        assert(a@.skip(0) =~= a@);
        assert(b@.skip(0) =~= b@);
    }
    loop
        invariant
            i <= a.len(),
            i <= b.len(),
            chars_lt(a@, b@) == chars_lt(a@.skip(i as int), b@.skip(i as int)),
        decreases a.len() - i,
    {
        proof {
            assert(a@.skip(i as int).len() == a@.len() - i);
            assert(b@.skip(i as int).len() == b@.len() - i);
        }
        if i == b.len() {
            return false;
        }
        if i == a.len() {
            return true;
        }
        let ca = a[i];
        let cb = b[i];
        proof {
            assert(a@.skip(i as int)[0] == a@[i as int]);
            assert(b@.skip(i as int)[0] == b@[i as int]);
        }
        if ca as u32 != cb as u32 {
            return (ca as u32) < (cb as u32);
        }
        proof {
            assert(a@.skip(i as int).drop_first() =~= a@.skip(i as int + 1));
            assert(b@.skip(i as int).drop_first() =~= b@.skip(i as int + 1));
        }
        i = i + 1;
    }
}

/// Exec test for equality of two character vectors.
fn chars_vec_eq(a: &Vec<char>, b: &Vec<char>) -> (r: bool)
    ensures
        r == (a@ =~= b@),
{
    if a.len() != b.len() {
        return false;
    }
    let mut i: usize = 0;
    while i < a.len()
        invariant
            i <= a.len(),
            a.len() == b.len(),
            forall|k: int| 0 <= k < i ==> a@[k] == b@[k],
        decreases a.len() - i,
    {
        if a[i] as u32 != b[i] as u32 {
            return false;
        }
        proof {
            lemma_char_cast_eq(a@[i as int], b@[i as int]);
        }
        i = i + 1;
    }
    true
}

/// Exec test for [`pre_ident_lt`].
fn pre_ident_exec_lt(a: &PreIdent, b: &PreIdent) -> (r: bool)
    ensures
        r == pre_ident_lt(a@, b@),
{
    match (a, b) {
        (PreIdent::Num(x), PreIdent::Num(y)) => *x < *y,
        (PreIdent::Num(_), PreIdent::Txt(_)) => true,
        (PreIdent::Txt(_), PreIdent::Num(_)) => false,
        (PreIdent::Txt(x), PreIdent::Txt(y)) => chars_vec_lt(x, y),
    }
}

/// Exec test for equality of two pre-release identifiers.
fn pre_ident_exec_eq(a: &PreIdent, b: &PreIdent) -> (r: bool)
    ensures
        r == (a@ == b@),
{
    match (a, b) {
        (PreIdent::Num(x), PreIdent::Num(y)) => *x == *y,
        (PreIdent::Txt(x), PreIdent::Txt(y)) => {
            let e = chars_vec_eq(x, y);
            proof {
                if !e {
                    assert(a@ == b@ ==> x@ =~= y@);
                }
            }
            e
        },
        _ => false,
    }
}

/// Exec test for equality of two whole pre-release tags.
pub fn pre_exec_eq(a: &Vec<PreIdent>, b: &Vec<PreIdent>) -> (r: bool)
    ensures
        r == (a@.map_values(|p: PreIdent| p@) == b@.map_values(|p: PreIdent| p@)),
{
    let ghost av = a@.map_values(|p: PreIdent| p@);
    let ghost bv = b@.map_values(|p: PreIdent| p@);
    if a.len() != b.len() {
        proof {
            assert(av.len() != bv.len());
        }
        return false;
    }
    let mut i: usize = 0;
    while i < a.len()
        invariant
            i <= a.len(),
            a.len() == b.len(),
            av == a@.map_values(|p: PreIdent| p@),
            bv == b@.map_values(|p: PreIdent| p@),
            forall|k: int| 0 <= k < i ==> av[k] == bv[k],
        decreases a.len() - i,
    {
        if !pre_ident_exec_eq(&a[i], &b[i]) {
            proof {
                assert(av[i as int] != bv[i as int]);
            }
            return false;
        }
        i = i + 1;
    }
    proof {
        assert(av =~= bv);
    }
    true
}

/// Exec test for [`pre_lt`] on whole tags.
pub fn pre_exec_lt(a: &Vec<PreIdent>, b: &Vec<PreIdent>) -> (r: bool)
    ensures
        r == pre_lt(a@.map_values(|p: PreIdent| p@), b@.map_values(|p: PreIdent| p@)),
{
    let ghost av = a@.map_values(|p: PreIdent| p@);
    let ghost bv = b@.map_values(|p: PreIdent| p@);
    if a.len() == 0 {
        return false;
    }
    if b.len() == 0 {
        return true;
    }
    let mut i: usize = 0;
    proof {
        assert(av.skip(0) =~= av);
        assert(bv.skip(0) =~= bv);
    }
    loop
        invariant
            i <= a.len(),
            i <= b.len(),
            av == a@.map_values(|p: PreIdent| p@),
            bv == b@.map_values(|p: PreIdent| p@),
            a.len() > 0,
            b.len() > 0,
            pre_list_lt(av, bv) == pre_list_lt(av.skip(i as int), bv.skip(i as int)),
        decreases a.len() - i,
    {
        proof {
            assert(av.skip(i as int).len() == av.len() - i);
            assert(bv.skip(i as int).len() == bv.len() - i);
        }
        if i == b.len() {
            return false;
        }
        if i == a.len() {
            return true;
        }
        proof {
            assert(av.skip(i as int)[0] == av[i as int]);
            assert(bv.skip(i as int)[0] == bv[i as int]);
        }
        if pre_ident_exec_lt(&a[i], &b[i]) {
            return true;
        }
        if !pre_ident_exec_eq(&a[i], &b[i]) {
            return false;
        }
        proof {
            assert(av.skip(i as int).drop_first() =~= av.skip(i as int + 1));
            assert(bv.skip(i as int).drop_first() =~= bv.skip(i as int + 1));
        }
        i = i + 1;
    }
}

/// Exec test for [`version_lt`].
pub fn version_exec_lt(a: &Version, b: &Version) -> (r: bool)
    ensures
        r == version_lt(a@, b@),
{
    if a.major != b.major {
        return a.major < b.major;
    }
    if a.minor != b.minor {
        return a.minor < b.minor;
    }
    if a.patch != b.patch {
        return a.patch < b.patch;
    }
    pre_exec_lt(&a.pre, &b.pre)
}

/// Exec test for equality of two versions (all four components).
pub fn version_exec_eq(a: &Version, b: &Version) -> (r: bool)
    ensures
        r == (a@ =~= b@),
{
    if a.major != b.major || a.minor != b.minor || a.patch != b.patch {
        return false;
    }
    if a.pre.len() != b.pre.len() {
        proof {
            assert(a@.pre.len() != b@.pre.len());
        }
        return false;
    }
    let mut i: usize = 0;
    while i < a.pre.len()
        invariant
            i <= a.pre.len(),
            a.pre.len() == b.pre.len(),
            a.major == b.major,
            a.minor == b.minor,
            a.patch == b.patch,
            forall|k: int| 0 <= k < i ==> a@.pre[k] == b@.pre[k],
        decreases a.pre.len() - i,
    {
        if !pre_ident_exec_eq(&a.pre[i], &b.pre[i]) {
            proof {
                assert(a@.pre[i as int] != b@.pre[i as int]);
            }
            return false;
        }
        i = i + 1;
    }
    proof {
        assert(a@.pre =~= b@.pre);
    }
    true
}


/// Non-strict ascending order.
pub open spec fn sorted_le(vs: Seq<VersionView>) -> bool {
    forall|i: int, j: int| 0 <= i < j < vs.len() ==> version_le(#[trigger] vs[i], #[trigger] vs[j])
}

/// The versions of `input` in ascending order: same values, with
/// multiplicity, non-strictly sorted.
pub fn sort_versions(input: &Vec<Version>) -> (r: Vec<Version>)
    ensures
        version_views(r@).to_multiset() == version_views(input@).to_multiset(),
        sorted_le(version_views(r@)),
{
    broadcast use vstd::seq_lib::group_to_multiset_ensures;

    let mut rest: Vec<Version> = Vec::new();
    let mut i: usize = 0;
    while i < input.len()
        invariant
            i <= input@.len(),
            rest@.len() == i,
            forall|k: int| 0 <= k < i ==> (#[trigger] rest@[k])@ == input@[k]@,
        decreases input@.len() - i,
    {
        rest.push(input[i].duplicate());
        i = i + 1;
    }
    proof {
        assert(version_views(rest@) =~= version_views(input@));
    }
    let ghost all = version_views(input@).to_multiset();
    let mut out: Vec<Version> = Vec::new();
    while rest.len() > 0
        invariant
            version_views(out@).to_multiset().add(version_views(rest@).to_multiset()) =~= all,
            sorted_le(version_views(out@)),
            forall|a: int, b: int|
                0 <= a < out@.len() && 0 <= b < rest@.len() ==> version_le(
                    #[trigger] version_views(out@)[a],
                    #[trigger] version_views(rest@)[b],
                ),
        decreases rest@.len(),
    {
        let mut min_idx: usize = 0;
        let mut k: usize = 1;
        proof {
            let w = version_views(rest@);
            lemma_version_order_total(w[0], w[0]);
        }
        while k < rest.len()
            invariant
                min_idx < k,
                k <= rest@.len(),
                rest@.len() > 0,
                forall|t: int|
                    0 <= t < k ==> !version_lt(
                        #[trigger] version_views(rest@)[t],
                        version_views(rest@)[min_idx as int],
                    ),
            decreases rest@.len() - k,
        {
            let ghost w = version_views(rest@);
            let ghost old_min = min_idx as int;
            if version_exec_lt(&rest[k], &rest[min_idx]) {
                min_idx = k;
                proof {
                    assert forall|t: int| 0 <= t < k as int + 1 implies !version_lt(
                        #[trigger] w[t],
                        w[min_idx as int],
                    ) by {
                        lemma_version_order_total(w[t], w[k as int]);
                        if version_lt(w[t], w[k as int]) {
                            lemma_version_order_transitive(w[t], w[k as int], w[old_min]);
                        }
                        lemma_version_order_total(w[k as int], w[k as int]);
                    }
                }
            } else {
                proof {
                    assert(!version_lt(w[k as int], w[old_min]));
                }
            }
            k = k + 1;
        }
        let ghost before = version_views(rest@);
        let ghost m = before[min_idx as int];
        proof {
            assert forall|t: int| 0 <= t < before.len() implies version_le(
                m,
                #[trigger] before[t],
            ) by {
                lemma_version_order_total(m, before[t]);
            }
        }
        let v = rest.remove(min_idx);
        proof {
            assert(v@ == m);
            assert(version_views(rest@) =~= before.remove(min_idx as int));
            before.to_multiset_ensures();
            assert(before.remove(min_idx as int).to_multiset() =~= before.to_multiset().remove(
                m,
            ));
            assert(version_views(out@.push(v)) =~= version_views(out@).push(m));
            version_views(out@).to_multiset_ensures();
            assert(version_views(out@).push(m).to_multiset() =~= version_views(
                out@,
            ).to_multiset().insert(m));
        }
        out.push(v);
        proof {
            assert(version_views(out@).to_multiset().add(version_views(rest@).to_multiset())
                =~= all) by {
                assert(before.to_multiset().count(m) >= 1) by {
                    assert(before.contains(m));
                }
            }
            assert forall|a: int, b: int|
                0 <= a < out@.len() && 0 <= b < rest@.len() implies version_le(
                #[trigger] version_views(out@)[a],
                #[trigger] version_views(rest@)[b],
            ) by {
                assert(version_views(rest@)[b] == if b < min_idx {
                    before[b]
                } else {
                    before[b + 1]
                });
                if a < out@.len() - 1 {
                } else {
                    assert(version_views(out@)[a] == m);
                }
            }
            assert(sorted_le(version_views(out@))) by {
                assert forall|a: int, b: int|
                    0 <= a < b < version_views(out@).len() implies version_le(
                    #[trigger] version_views(out@)[a],
                    #[trigger] version_views(out@)[b],
                ) by {
                    if b == out@.len() - 1 {
                        assert(version_views(out@)[b] == m);
                        assert(version_le(version_views(out@)[a], before[min_idx as int]));
                    }
                }
            }
        }
    }
    proof {
        assert(version_views(rest@).to_multiset() =~= Multiset::<VersionView>::empty());
        assert(version_views(out@).to_multiset() =~= all);
    }
    out
}

/// Exec test for [`chars_lt`] on strings.
pub fn string_lt(a: &String, b: &String) -> (r: bool)
    ensures
        r == chars_lt(a@, b@),
{
    let sa = a.as_str();
    let sb = b.as_str();
    let na = sa.unicode_len();
    let nb = sb.unicode_len();
    let mut i: usize = 0;
    proof {
        assert(a@.skip(0) =~= a@);
        assert(b@.skip(0) =~= b@);
    }
    loop
        invariant
            i <= na,
            i <= nb,
            na == a@.len(),
            nb == b@.len(),
            sa@ == a@,
            sb@ == b@,
            chars_lt(a@, b@) == chars_lt(a@.skip(i as int), b@.skip(i as int)),
        decreases na - i,
    {
        proof {
            assert(a@.skip(i as int).len() == a@.len() - i);
            assert(b@.skip(i as int).len() == b@.len() - i);
        }
        if i == nb {
            return false;
        }
        if i == na {
            return true;
        }
        let ca = sa.get_char(i);
        let cb = sb.get_char(i);
        proof {
            assert(a@.skip(i as int)[0] == a@[i as int]);
            assert(b@.skip(i as int)[0] == b@[i as int]);
        }
        if ca as u32 != cb as u32 {
            return (ca as u32) < (cb as u32);
        }
        proof {
            assert(a@.skip(i as int).drop_first() =~= a@.skip(i as int + 1));
            assert(b@.skip(i as int).drop_first() =~= b@.skip(i as int + 1));
        }
        i = i + 1;
    }
}

/// The index at which `vs` holds `v`, when it does.
pub fn position_of_version(vs: &Vec<Version>, v: &Version) -> (r: Option<usize>)
    ensures
        match r {
            Some(i) => i < vs@.len() && version_views(vs@)[i as int] == v@,
            None => forall|k: int| 0 <= k < vs@.len() ==> version_views(vs@)[k] != v@,
        },
{
    let mut i: usize = 0;
    while i < vs.len()
        invariant
            i <= vs@.len(),
            forall|k: int| 0 <= k < i ==> version_views(vs@)[k] != v@,
        decreases vs@.len() - i,
    {
        if version_exec_eq(&vs[i], v) {
            return Some(i);
        }
        i = i + 1;
    }
    None
}

} // verus!
