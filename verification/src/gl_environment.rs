//! GDK settings applied before GTK creates the compositor's shared GL context: version-scoped
//! workarounds, merged into the user's own flag lists.
use crate::text::{chars_of, occurs_at, string_of};
use vstd::prelude::*;
use vstd::string::StringExecFns;

verus! {

/// A GTK version as major, minor and micro numbers.
pub type Version = (u32, u32, u32);

/// Whether version `v` is at least `w`, comparing major, then minor, then micro.
pub open spec fn at_least(v: Version, w: Version) -> bool {
    v.0 > w.0 || (v.0 == w.0 && (v.1 > w.1 || (v.1 == w.1 && v.2 >= w.2)))
}

/// The flag lists to extend, in order, for GTK version `v`: always prefer desktop GL; from
/// 4.16.0 disable GLES and Vulkan, or from 4.14.0 the older debug spellings of that; and for
/// 4.16.0 through 4.22.4 also disable dmabuf.
pub open spec fn spec_updates(v: Version) -> Seq<(Seq<char>, Seq<Seq<char>>)> {
    let first = seq![("GDK_DEBUG"@, seq!["gl-prefer-gl"@])];
    let second = if at_least(v, (4, 16, 0)) {
        first.push(("GDK_DISABLE"@, seq!["gles-api"@, "vulkan"@]))
    } else if at_least(v, (4, 14, 0)) {
        first.push(("GDK_DEBUG"@, seq!["gl-disable-gles"@, "vulkan-disable"@]))
    } else {
        first
    };
    if at_least(v, (4, 16, 0)) && at_least((4, 22, 4), v) {
        second.push(("GDK_DISABLE"@, seq!["dmabuf"@]))
    } else {
        second
    }
}

/// One flag list to extend: an environment variable and the flags it must hold.
#[derive(Debug)]
pub struct FlagUpdate {
    pub variable: &'static str,
    pub flags: Vec<&'static str>,
}

impl FlagUpdate {
    /// This update by its texts.
    pub open spec fn model(&self) -> (Seq<char>, Seq<Seq<char>>) {
        (self.variable@, self.flags@.map_values(|f: &'static str| f@))
    }
}

/// One update with its texts revealed.
fn update(variable: &'static str, flags: Vec<&'static str>) -> (u: FlagUpdate)
    ensures
        u.variable == variable,
        u.flags@ == flags@,
{
    FlagUpdate { variable, flags }
}

/// The flag lists to extend for GTK version `version`, in order.
pub fn updates(version: Version) -> (r: Vec<FlagUpdate>)
    ensures
        r@.map_values(|u: FlagUpdate| u.model()) == spec_updates(version),
{
    proof {
        reveal_strlit("GDK_DEBUG");
        reveal_strlit("GDK_DISABLE");
        reveal_strlit("gl-prefer-gl");
        reveal_strlit("gles-api");
        reveal_strlit("vulkan");
        reveal_strlit("gl-disable-gles");
        reveal_strlit("vulkan-disable");
        reveal_strlit("dmabuf");
    }
    let (major, minor, micro) = version;
    let from_4_16 = major > 4 || (major == 4 && minor >= 16);
    let from_4_14 = major > 4 || (major == 4 && minor >= 14);
    let to_4_22_4 = major < 4 || (major == 4 && (minor < 22 || (minor == 22 && micro <= 4)));
    let mut r: Vec<FlagUpdate> = Vec::new();
    r.push(update("GDK_DEBUG", vec!["gl-prefer-gl"]));
    if from_4_16 {
        r.push(update("GDK_DISABLE", vec!["gles-api", "vulkan"]));
    } else if from_4_14 {
        r.push(update("GDK_DEBUG", vec!["gl-disable-gles", "vulkan-disable"]));
    }
    if from_4_16 && to_4_22_4 {
        r.push(update("GDK_DISABLE", vec!["dmabuf"]));
    }
    proof {
        assert(from_4_16 == at_least(version, (4, 16, 0)));
        assert(from_4_14 == at_least(version, (4, 14, 0)));
        assert(to_4_22_4 == at_least((4, 22, 4), version));
        let m = r@.map_values(|u: FlagUpdate| u.model());
        assert(r@[0].flags@.map_values(|f: &'static str| f@) =~= seq!["gl-prefer-gl"@]);
        assert(m =~~= spec_updates(version));
    }
    r
}

/// Whether a character separates flags in a list.
pub open spec fn separator(c: char) -> bool {
    c == ':' || c == ' ' || c == ','
}

/// Whether a flag list holds `flag` as one of its separated entries.
pub open spec fn has_entry(value: Seq<char>, flag: Seq<char>) -> bool {
    exists|i: int|
        #![trigger occurs_at(value, flag, i)]
        occurs_at(value, flag, i) && (i == 0 || separator(value[i - 1])) && (i + flag.len()
            == value.len() || separator(value[i + flag.len()]))
}

/// A flag list after adding the missing flags, in order, each after a comma when the list is
/// not empty.
pub open spec fn with_flags(value: Seq<char>, flags: Seq<Seq<char>>) -> Seq<char>
    decreases flags.len(),
{
    if flags.len() == 0 {
        value
    } else {
        let v = with_flags(value, flags.drop_last());
        let f = flags.last();
        if has_entry(v, f) {
            v
        } else if v.len() == 0 {
            f
        } else {
            v + ","@ + f
        }
    }
}

/// Whether `flag` is one of the separated entries of `value`.
fn has_flag(value: &Vec<char>, flag: &Vec<char>) -> (r: bool)
    ensures
        r == has_entry(value@, flag@),
{
    let n = value.len();
    let m = flag.len();
    if m > n {
        assert forall|i: int| !occurs_at(value@, flag@, i) by {}
        return false;
    }
    let last = n - m;
    let mut i: usize = 0;
    while i <= last
        invariant_except_break
            i <= last,
        invariant
            m <= n,
            last == n - m,
            n == value@.len(),
            m == flag@.len(),
            forall|j: int|
                0 <= j < i ==> !(occurs_at(value@, flag@, j) && (j == 0 || separator(value@[j - 1]))
                    && (j + m == n || separator(value@[j + m]))),
        ensures
            forall|j: int|
                0 <= j <= last ==> !(occurs_at(value@, flag@, j) && (j == 0 || separator(
                    value@[j - 1],
                )) && (j + m == n || separator(value@[j + m]))),
        decreases last - i,
    {
        let starts = i == 0 || value[i - 1] == ':' || value[i - 1] == ' ' || value[i - 1] == ',';
        let ends = i + m == n || value[i + m] == ':' || value[i + m] == ' ' || value[i + m] == ',';
        if starts && ends {
            let mut k: usize = 0;
            while k < m && value[i + k] == flag[k]
                invariant
                    k <= m,
                    i + m <= n,
                    n == value@.len(),
                    m == flag@.len(),
                    forall|x: int| 0 <= x < k ==> value@[i + x] == flag@[x],
                decreases m - k,
            {
                k = k + 1;
            }
            if k == m {
                assert(value@.subrange(i as int, i + m) =~= flag@);
                assert(occurs_at(value@, flag@, i as int));
                return true;
            }
            assert(!occurs_at(value@, flag@, i as int)) by {
                if occurs_at(value@, flag@, i as int) {
                    assert(value@.subrange(i as int, i + m)[k as int] == flag@[k as int]);
                }
            }
        }
        if i == last {
            break;
        }
        i = i + 1;
    }
    assert forall|j: int|
        #![trigger occurs_at(value@, flag@, j)]
        !(occurs_at(value@, flag@, j) && (j == 0 || separator(value@[j - 1])) && (j + m == n
            || separator(value@[j + m]))) by {
        if occurs_at(value@, flag@, j) {
            assert(0 <= j <= last);
        }
    }
    false
}

/// Add the missing flags to a flag list without replacing explicit entries or duplicating
/// them.
pub fn append_flags(value: &str, flags: &[&str]) -> (r: String)
    ensures
        r@ == with_flags(value@, flags@.map_values(|f: &str| f@)),
{
    let ghost fs = flags@.map_values(|f: &str| f@);
    let mut current = chars_of(value);
    let mut k: usize = 0;
    while k < flags.len()
        invariant
            k <= flags@.len(),
            fs == flags@.map_values(|f: &str| f@),
            current@ == with_flags(value@, fs.take(k as int)),
        decreases flags@.len() - k,
    {
        proof {
            assert(fs.take(k + 1).drop_last() =~= fs.take(k as int));
            assert(fs.take(k + 1).last() == flags@[k as int]@);
        }
        let flag = chars_of(flags[k]);
        if !has_flag(&current, &flag) {
            if current.len() > 0 {
                current.push(',');
            }
            let mut j: usize = 0;
            let ghost base = current@;
            while j < flag.len()
                invariant
                    j <= flag@.len(),
                    current@ == base + flag@.take(j as int),
                decreases flag@.len() - j,
            {
                current.push(flag[j]);
                j = j + 1;
                assert(current@ =~= base + flag@.take(j as int));
            }
            proof {
                assert(flag@.take(j as int) =~= flag@);
                reveal_strlit(",");
                let v = with_flags(value@, fs.take(k as int));
                if v.len() > 0 {
                    assert(base =~= v.push(','));
                    assert(v + ","@ + flag@ =~= base + flag@);
                } else {
                    assert(base =~= v);
                    assert(base + flag@ =~= flag@);
                }
            }
        }
        k = k + 1;
    }
    assert(fs.take(k as int) =~= fs);
    string_of(current.as_slice())
}

} // verus!
