//! Short `surface:N` references to browser surfaces, handed out in order and resolved back to
//! surface identities, and the browser daemon's names for CLI actions.
use crate::notifications::{all_digits, digits_value};
use crate::text::{chars_of, decimal, digit_char, push_decimal, slice_chars, string_of};
use vstd::prelude::*;
use vstd::string::StringExecFns;

verus! {

/// The value `u32::from_str` reads: an optional `+`, then at least one decimal digit, within
/// `u32`.
pub open spec fn parse_u32(s: Seq<char>) -> Option<u32> {
    let d = if s.len() > 0 && s[0] == '+' {
        s.drop_first()
    } else {
        s
    };
    if d.len() > 0 && all_digits(d) && digits_value(d) <= u32::MAX {
        Some(digits_value(d) as u32)
    } else {
        None
    }
}

/// A longer digit string is worth at least as much as its prefix.
proof fn lemma_digits_prefix(s: Seq<char>, k: int)
    requires
        all_digits(s),
        0 <= k <= s.len(),
    ensures
        digits_value(s.take(k)) <= digits_value(s),
        digits_value(s.take(k)) >= 0,
    decreases s.len() - k,
{
    if k < s.len() {
        lemma_digits_prefix(s, k + 1);
        assert(s.take(k + 1).drop_last() =~= s.take(k));
        assert(all_digits(s.take(k + 1)));
        lemma_digits_nonneg(s.take(k));
    } else {
        assert(s.take(k) =~= s);
        lemma_digits_nonneg(s);
    }
}

/// Digit strings are worth at least zero.
proof fn lemma_digits_nonneg(s: Seq<char>)
    requires
        all_digits(s),
    ensures
        digits_value(s) >= 0,
    decreases s.len(),
{
    if s.len() > 0 {
        assert(all_digits(s.drop_last()));
        lemma_digits_nonneg(s.drop_last());
    }
}

/// Read a number the way `u32::from_str` does.
pub fn read_u32(text: &[char]) -> (r: Option<u32>)
    ensures
        r == parse_u32(text@),
{
    let start: usize = if text.len() > 0 && text[0] == '+' {
        1
    } else {
        0
    };
    let ghost d = if text@.len() > 0 && text@[0] == '+' {
        text@.drop_first()
    } else {
        text@
    };
    assert(d =~= text@.skip(start as int));
    if start == text.len() {
        return None;
    }
    let mut value: u64 = 0;
    let mut k: usize = start;
    while k < text.len()
        invariant
            start <= k <= text@.len(),
            d =~= text@.skip(start as int),
            d == (if text@.len() > 0 && text@[0] == '+' {
                text@.drop_first()
            } else {
                text@
            }),
            d.len() > 0,
            all_digits(d.take(k - start)),
            value == digits_value(d.take(k - start)),
            value <= u32::MAX,
        decreases text@.len() - k,
    {
        let c = text[k];
        if !('0' <= c && c <= '9') {
            assert(d[k - start] == c);
            assert(!('0' <= d[k - start] && d[k - start] <= '9'));
            return None;
        }
        let digit = (c as u32 - '0' as u32) as u64;
        proof {
            assert(d.take(k - start + 1).drop_last() =~= d.take(k - start));
            assert(d.take(k - start + 1).last() == c);
        }
        value = value * 10 + digit;
        if value > 0xffff_ffffu64 {
            proof {
                assert(all_digits(d.take(k - start + 1)));
                if all_digits(d) {
                    lemma_digits_prefix(d, k - start + 1);
                    assert(digits_value(d) > u32::MAX);
                }
            }
            return None;
        }
        k = k + 1;
    }
    assert(d.take(k - start) =~= d);
    Some(value as u32)
}

/// The value `u64::from_str` reads: an optional `+`, then at least one decimal digit, within
/// `u64`.
pub open spec fn parse_u64(s: Seq<char>) -> Option<u64> {
    let d = if s.len() > 0 && s[0] == '+' {
        s.drop_first()
    } else {
        s
    };
    if d.len() > 0 && all_digits(d) && digits_value(d) <= u64::MAX {
        Some(digits_value(d) as u64)
    } else {
        None
    }
}

/// Read a number the way `u64::from_str` does.
pub fn read_u64(text: &[char]) -> (r: Option<u64>)
    ensures
        r == parse_u64(text@),
{
    let start: usize = if text.len() > 0 && text[0] == '+' {
        1
    } else {
        0
    };
    let ghost d = if text@.len() > 0 && text@[0] == '+' {
        text@.drop_first()
    } else {
        text@
    };
    assert(d =~= text@.skip(start as int));
    if start == text.len() {
        return None;
    }
    let mut value: u128 = 0;
    let mut k: usize = start;
    while k < text.len()
        invariant
            start <= k <= text@.len(),
            d =~= text@.skip(start as int),
            d == (if text@.len() > 0 && text@[0] == '+' {
                text@.drop_first()
            } else {
                text@
            }),
            d.len() > 0,
            all_digits(d.take(k - start)),
            value == digits_value(d.take(k - start)),
            value <= u64::MAX,
        decreases text@.len() - k,
    {
        let c = text[k];
        if !('0' <= c && c <= '9') {
            assert(d[k - start] == c);
            assert(!('0' <= d[k - start] && d[k - start] <= '9'));
            return None;
        }
        let digit = (c as u32 - '0' as u32) as u128;
        proof {
            assert(d.take(k - start + 1).drop_last() =~= d.take(k - start));
            assert(d.take(k - start + 1).last() == c);
        }
        value = value * 10 + digit;
        if value > 0xffff_ffff_ffff_ffffu128 {
            proof {
                assert(all_digits(d.take(k - start + 1)));
                if all_digits(d) {
                    lemma_digits_prefix(d, k - start + 1);
                    assert(digits_value(d) > u64::MAX);
                }
            }
            return None;
        }
        k = k + 1;
    }
    assert(d.take(k - start) =~= d);
    Some(value as u64)
}

/// The text of reference number `id`: `surface:` and the number.
pub open spec fn ref_text(id: u32) -> Seq<char> {
    "surface:"@ + decimal(id as nat)
}

/// Browser surface references: identity `id` maps to a surface, ids handed out in increasing
/// order from a counter.
pub struct SurfaceRefs {
    counter: u32,
    refs: Vec<(u32, String)>,
}

/// Position of reference `id` in registration order, or the count.
pub open spec fn ref_index(refs: Seq<(u32, Seq<char>)>, id: u32) -> int
    decreases refs.len(),
{
    if refs.len() == 0 {
        0
    } else if ref_index(refs.drop_last(), id) < refs.len() - 1 {
        ref_index(refs.drop_last(), id)
    } else if refs.last().0 == id {
        refs.len() - 1
    } else {
        refs.len() as int
    }
}

/// `ref_index` is the first position holding `id`, or the count.
proof fn lemma_ref_index(refs: Seq<(u32, Seq<char>)>, id: u32)
    ensures
        0 <= ref_index(refs, id) <= refs.len(),
        ref_index(refs, id) < refs.len() ==> refs[ref_index(refs, id)].0 == id,
        forall|j: int| 0 <= j < ref_index(refs, id) ==> (#[trigger] refs[j]).0 != id,
    decreases refs.len(),
{
    if refs.len() > 0 {
        let d = refs.drop_last();
        lemma_ref_index(d, id);
        assert forall|j: int| 0 <= j < ref_index(refs, id) implies (#[trigger] refs[j]).0 != id by {
            if j < d.len() {
                assert(d[j] == refs[j]);
            }
        }
    }
}

/// What a reference resolves to: a registered `surface:N` gives its surface, an unregistered
/// one is refused with its normalized text, and anything else is taken as a surface identity.
pub open spec fn spec_resolve(refs: Seq<(u32, Seq<char>)>, r: Seq<char>) -> Result<Seq<char>, Seq<char>> {
    let prefix = "surface:"@;
    if r.len() >= prefix.len() && r.take(prefix.len() as int) == prefix && parse_u32(
        r.skip(prefix.len() as int),
    ) is Some {
        let n = parse_u32(r.skip(prefix.len() as int))->Some_0;
        let i = ref_index(refs, n);
        if i < refs.len() {
            Ok(refs[i].1)
        } else {
            Err(ref_text(n) + " not found"@)
        }
    } else {
        Ok(r)
    }
}

impl SurfaceRefs {
    /// The references by number and surface, in registration order.
    pub closed spec fn model(&self) -> Seq<(u32, Seq<char>)> {
        self.refs@.map_values(|e: (u32, String)| (e.0, e.1@))
    }

    /// The last number handed out (0 before any).
    pub closed spec fn counter(&self) -> u32 {
        self.counter
    }

    /// Numbers ascend in registration order and none exceeds the counter.
    pub closed spec fn wf(&self) -> bool {
        &&& forall|i: int, j: int|
            0 <= i < j < self.refs@.len() ==> (#[trigger] self.refs@[i]).0 < (#[trigger] self.refs@[j]).0
        &&& forall|i: int| 0 <= i < self.refs@.len() ==> (#[trigger] self.refs@[i]).0 <= self.counter
    }

    /// No references yet.
    pub fn new() -> (s: SurfaceRefs)
        ensures
            s.wf(),
            s.model().len() == 0,
            s.counter() == 0,
    {
        SurfaceRefs { counter: 0, refs: Vec::new() }
    }

    /// Register an opened browser surface under the next number and return that number.
    pub fn register(&mut self, surface: String) -> (id: u32)
        requires
            old(self).wf(),
            old(self).counter() < u32::MAX,
        ensures
            final(self).wf(),
            id == old(self).counter() + 1,
            final(self).counter() == id,
            final(self).model() == old(self).model().push((id, surface@)),
    {
        self.counter = self.counter + 1;
        let id = self.counter;
        let ghost entry = (id, surface@);
        self.refs.push((id, surface));
        proof {
            assert(self.refs@.map_values(|e: (u32, String)| (e.0, e.1@)) =~= old(
                self,
            ).refs@.map_values(|e: (u32, String)| (e.0, e.1@)).push(entry));
        }
        id
    }

    /// Every registered reference as its `surface:N` text and surface, in registration order.
    pub fn list(&self) -> (r: Vec<(String, String)>)
        ensures
            r@.len() == self.model().len(),
            forall|i: int|
                0 <= i < r@.len() ==> (#[trigger] r@[i]).0@ == ref_text(self.model()[i].0)
                    && r@[i].1@ == self.model()[i].1,
    {
        let mut out: Vec<(String, String)> = Vec::new();
        let mut k: usize = 0;
        while k < self.refs.len()
            invariant
                k <= self.refs@.len(),
                out@.len() == k,
                forall|i: int|
                    0 <= i < k ==> (#[trigger] out@[i]).0@ == ref_text(self.refs@[i].0)
                        && out@[i].1@ == self.refs@[i].1@,
            decreases self.refs@.len() - k,
        {
            out.push((ref_name(self.refs[k].0), self.refs[k].1.clone()));
            k = k + 1;
        }
        out
    }

    /// Resolve a `surface:N` reference or a surface identity to a surface identity; an
    /// unregistered reference is refused with its message and the references available.
    pub fn resolve(&self, surface_ref: &str) -> (r: Result<String, (String, Vec<String>)>)
        ensures
            match spec_resolve(self.model(), surface_ref@) {
                Ok(s) => r matches Ok(t) && t@ == s,
                Err(m) => r matches Err((msg, available)) && msg@ == m && available@.len()
                    == self.model().len() && forall|i: int|
                    0 <= i < available@.len() ==> (#[trigger] available@[i])@ == ref_text(
                        self.model()[i].0,
                    ),
            },
    {
        let v = chars_of(surface_ref);
        let prefix = chars_of("surface:");
        proof {
            reveal_strlit("surface:");
            reveal_strlit(" not found");
        }
        let mut starts = v.len() >= 8;
        let mut k: usize = 0;
        while starts && k < 8
            invariant
                prefix@ == "surface:"@,
                prefix@.len() == 8,
                v@ == surface_ref@,
                starts ==> v@.len() >= 8,
                k <= 8,
                starts ==> forall|j: int| 0 <= j < k ==> v@[j] == prefix@[j],
                !starts ==> !(v@.len() >= 8 && v@.take(8) == prefix@),
            decreases 8 - k,
        {
            if v[k] != prefix[k] {
                assert(v@.take(8)[k as int] != prefix@[k as int]);
                starts = false;
            }
            k = k + 1;
        }
        if starts {
            assert(v@.take(8) =~= prefix@);
            let rest = slice_chars(&v, 8, v.len());
            assert(rest@ =~= surface_ref@.skip(8));
            if let Some(n) = read_u32(rest.as_slice()) {
                let mut i: usize = 0;
                while i < self.refs.len() && self.refs[i].0 != n
                    invariant
                        i <= self.refs@.len(),
                        forall|j: int| 0 <= j < i ==> (#[trigger] self.refs@[j]).0 != n,
                    decreases self.refs@.len() - i,
                {
                    i = i + 1;
                }
                proof {
                    lemma_ref_index(self.model(), n);
                    let m = self.model();
                    let f = ref_index(m, n);
                    if f < i {
                        assert(m[f].0 == self.refs@[f].0);
                    }
                    if i < self.refs@.len() && i < f {
                        assert(m[i as int].0 == self.refs@[i as int].0);
                    }
                }
                if i < self.refs.len() {
                    return Ok(self.refs[i].1.clone());
                }
                let mut message = ref_name(n);
                message.append(" not found");
                let mut available: Vec<String> = Vec::new();
                let mut j: usize = 0;
                while j < self.refs.len()
                    invariant
                        j <= self.refs@.len(),
                        available@.len() == j,
                        forall|x: int|
                            0 <= x < j ==> (#[trigger] available@[x])@ == ref_text(self.refs@[x].0),
                    decreases self.refs@.len() - j,
                {
                    available.push(ref_name(self.refs[j].0));
                    j = j + 1;
                }
                return Err((message, available));
            }
        }
        Ok(String::from_str(surface_ref))
    }
}

/// The text of reference number `id`.
pub fn ref_name(id: u32) -> (s: String)
    ensures
        s@ == ref_text(id),
{
    let mut s = String::from_str("surface:");
    proof {
        reveal_strlit("surface:");
    }
    push_decimal(&mut s, id as u64);
    s
}

/// The browser daemon's name for a CLI browser action; other names pass unchanged.
pub open spec fn spec_daemon_action(action: Seq<char>) -> Seq<char> {
    if action == "open"@ {
        "launch"@
    } else if action == "goto"@ {
        "navigate"@
    } else if action == "eval"@ {
        "evaluate"@
    } else if action == "gethtml"@ {
        "innerhtml"@
    } else if action == "stream.enable"@ {
        "stream_enable"@
    } else if action == "stream.disable"@ {
        "stream_disable"@
    } else {
        action
    }
}

/// Translate a CLI browser action name to the daemon's.
pub fn daemon_action(action: &str) -> (r: String)
    ensures
        r@ == spec_daemon_action(action@),
{
    proof {
        reveal_strlit("open");
        reveal_strlit("launch");
        reveal_strlit("goto");
        reveal_strlit("navigate");
        reveal_strlit("eval");
        reveal_strlit("evaluate");
        reveal_strlit("gethtml");
        reveal_strlit("innerhtml");
        reveal_strlit("stream.enable");
        reveal_strlit("stream_enable");
        reveal_strlit("stream.disable");
        reveal_strlit("stream_disable");
    }
    let v = chars_of(action);
    if crate::text::chars_equal(&v, "open") {
        String::from_str("launch")
    } else if crate::text::chars_equal(&v, "goto") {
        String::from_str("navigate")
    } else if crate::text::chars_equal(&v, "eval") {
        String::from_str("evaluate")
    } else if crate::text::chars_equal(&v, "gethtml") {
        String::from_str("innerhtml")
    } else if crate::text::chars_equal(&v, "stream.enable") {
        String::from_str("stream_enable")
    } else if crate::text::chars_equal(&v, "stream.disable") {
        String::from_str("stream_disable")
    } else {
        String::from_str(action)
    }
}

/// Decimal text reads back as its number.
proof fn lemma_decimal_digits(n: nat)
    ensures
        decimal(n).len() > 0,
        all_digits(decimal(n)),
        digits_value(decimal(n)) == n,
        decimal(n)[0] != '+',
    decreases n,
{
    if n >= 10 {
        lemma_decimal_digits(n / 10);
        let d = decimal(n);
        assert(d.drop_last() =~= decimal(n / 10));
        assert(forall|i: int| 0 <= i < d.len() - 1 ==> d[i] == decimal(n / 10)[i]);
        assert(d.last() == digit_char(n % 10));
        assert(digit_char(n % 10) as int == 48 + n % 10);
        assert((n / 10) * 10 + n % 10 == n) by (nonlinear_arith);
        assert(digits_value(d.drop_last()) == n / 10);
        assert(('0' as int) == 48);
        assert(digits_value(d) == digits_value(d.drop_last()) * 10 + (d.last() as int - '0' as int));
    } else {
        let d = decimal(n);
        assert(digit_char(n) as int == 48 + n);
        assert(d.drop_last() =~= Seq::<char>::empty());
        assert(digits_value(d.drop_last()) == 0);
        assert(('0' as int) == 48);
    }
}

/// A reference reads back as the surface registered under it.
pub proof fn law_registered_ref_resolves(refs: Seq<(u32, Seq<char>)>, id: u32, surface: Seq<char>)
    requires
        forall|i: int| 0 <= i < refs.len() ==> (#[trigger] refs[i]).0 < id,
    ensures
        spec_resolve(refs.push((id, surface)), ref_text(id)) == Ok::<Seq<char>, Seq<char>>(surface),
{
    reveal_strlit("surface:");
    lemma_decimal_digits(id as nat);
    let t = ref_text(id);
    assert(t.take(8) =~= "surface:"@);
    assert(t.skip(8) =~= decimal(id as nat));
    let m = refs.push((id, surface));
    lemma_ref_index(m, id);
    let f = ref_index(m, id);
    if f < refs.len() {
        assert(m[f] == refs[f]);
    }
}


} // verus!
