//! Pure helpers over UTF-16 code units and bytes.

use vstd::prelude::*;

verus! {

/// The ASCII space, as a UTF-16 code unit.
pub const SPACE: u16 = 0x20;
/// The ASCII horizontal tab, as a UTF-16 code unit.
pub const TAB: u16 = 0x09;
/// The ASCII double quote, as a UTF-16 code unit.
pub const QUOTE: u16 = 0x22;
/// The ASCII full stop, as a UTF-16 code unit.
pub const DOT: u16 = 0x2E;

/// A space or a tab: the characters that end an unquoted program argument.
pub open spec fn is_blank(c: u16) -> bool {
    c == SPACE || c == TAB
}

/// Every code unit of `s` is a space or a tab.
pub open spec fn all_blank(s: Seq<u16>) -> bool {
    forall|k: int| 0 <= k < s.len() ==> is_blank(#[trigger] s[k])
}

/// How many double quotes `s` holds.
pub open spec fn quote_count(s: Seq<u16>) -> nat
    decreases s.len(),
{
    if s.len() == 0 {
        0
    } else {
        quote_count(s.drop_last()) + if s.last() == QUOTE { 1nat } else { 0nat }
    }
}

/// Index `j` of `cmdline` ends the program argument under the MSVC rule for
/// the program name: it is a space or tab, something other than blanks comes
/// before it, and the quotes before it are balanced (a quote toggles quoted
/// mode; a backslash escapes nothing).
pub open spec fn ends_program_at(cmdline: Seq<u16>, j: int) -> bool {
    &&& 0 <= j < cmdline.len()
    &&& is_blank(cmdline[j])
    &&& quote_count(cmdline.take(j)) % 2 == 0
    &&& !all_blank(cmdline.take(j))
}

/// `r` is where the program argument of `cmdline` ends: the first index that
/// ends it, or the whole length when none does.
pub open spec fn is_program_end(cmdline: Seq<u16>, r: int) -> bool {
    &&& 0 <= r <= cmdline.len()
    &&& r < cmdline.len() ==> ends_program_at(cmdline, r)
    &&& forall|j: int| 0 <= j < r ==> !ends_program_at(cmdline, j)
}

/// The first index at or after `k` that ends the program argument of
/// `cmdline`, or the whole length when none does.
pub open spec fn first_program_end_from(cmdline: Seq<u16>, k: int) -> int
    decreases cmdline.len() - k,
{
    if k >= cmdline.len() {
        cmdline.len() as int
    } else if ends_program_at(cmdline, k) {
        k
    } else {
        first_program_end_from(cmdline, k + 1)
    }
}

/// Where the program argument of `cmdline` ends.
pub open spec fn program_end(cmdline: Seq<u16>) -> int {
    first_program_end_from(cmdline, 0)
}

proof fn lemma_first_program_end_from(cmdline: Seq<u16>, k: int)
    requires
        0 <= k <= cmdline.len(),
        forall|j: int| 0 <= j < k ==> !ends_program_at(cmdline, j),
    ensures
        is_program_end(cmdline, first_program_end_from(cmdline, k)),
    decreases cmdline.len() - k,
{
    if k < cmdline.len() && !ends_program_at(cmdline, k) {
        lemma_first_program_end_from(cmdline, k + 1);
    }
}

/// The end of the program argument is one index and one only: `program_end`
/// names it, and no other index meets its description.
pub proof fn lemma_program_end_unique(cmdline: Seq<u16>, r: int)
    ensures
        is_program_end(cmdline, program_end(cmdline)),
        is_program_end(cmdline, r) <==> r == program_end(cmdline),
{
    lemma_first_program_end_from(cmdline, 0);
    let e: int = program_end(cmdline);
    if is_program_end(cmdline, r) && r != e {
        if r < e {
            assert(!ends_program_at(cmdline, r));
        } else {
            assert(!ends_program_at(cmdline, e));
        }
    }
}

proof fn lemma_quote_count_step(s: Seq<u16>, i: int)
    requires
        0 <= i < s.len(),
    ensures
        quote_count(s.take(i + 1)) == quote_count(s.take(i)) + if s[i] == QUOTE { 1nat } else { 0nat },
{
    assert(s.take(i + 1).drop_last() =~= s.take(i));
}

/// Index where the raw command line's first (program) argument ends.
///
/// This follows the MSVC parsing rule for the program name: a quote toggles
/// quoted mode and backslashes have no escaping effect. The remainder
/// (`&cmdline[result..]`, leading whitespace included) is the argument tail to
/// forward to the child verbatim.
pub fn skip_program_argument(cmdline: &[u16]) -> (r: usize)
    ensures
        r == program_end(cmdline@),
        is_program_end(cmdline@, r as int),
        r < cmdline@.len() ==> is_blank(cmdline@[r as int]),
{
    let ghost s = cmdline@;
    let mut i: usize = 0;
    while i < cmdline.len() && (cmdline[i] == SPACE || cmdline[i] == TAB)
        invariant
            s == cmdline@,
            i <= s.len(),
            all_blank(s.take(i as int)),
            quote_count(s.take(i as int)) == 0,
            forall|j: int| 0 <= j < i ==> !ends_program_at(s, j),
        decreases s.len() - i,
    {
        proof {
            lemma_quote_count_step(s, i as int);
            assert forall|k: int| 0 <= k < i + 1 implies is_blank(#[trigger] s.take(i + 1)[k]) by {
                if k < i {
                    assert(s.take(i + 1)[k] == s.take(i as int)[k]);
                }
            }
            assert forall|j: int| 0 <= j < i + 1 implies !ends_program_at(s, j) by {
                if j == i {
                    assert(all_blank(s.take(j)));
                }
            }
        }
        i += 1;
    }
    let ghost lead = i as int;
    let mut quoted = false;
    while i < cmdline.len()
        invariant_except_break
            s == cmdline@,
            0 <= lead <= i <= s.len(),
            all_blank(s.take(lead)),
            lead < s.len() ==> !is_blank(s[lead]),
            quoted == (quote_count(s.take(i as int)) % 2 == 1),
            forall|j: int| 0 <= j < i ==> !ends_program_at(s, j),
        ensures
            i <= s.len(),
            i < s.len() ==> ends_program_at(s, i as int),
            forall|j: int| 0 <= j < i ==> !ends_program_at(s, j),
        decreases s.len() - i,
    {
        let c: u16 = cmdline[i];
        proof {
            lemma_quote_count_step(s, i as int);
            if i > lead {
                assert(s.take(i as int)[lead] == s[lead]);
                assert(!all_blank(s.take(i as int)));
            } else {
                assert(!is_blank(s[i as int]));
            }
        }
        if c == QUOTE {
            quoted = !quoted;
        } else if (c == SPACE || c == TAB) && !quoted {
            break;
        }
        i += 1;
    }
    proof {
        lemma_program_end_unique(s, i as int);
    }
    i
}

/// `r` is the length of the file stem of `name`, as `Path::file_stem` has
/// it: everything before the last `.`, except that a leading `.` never starts
/// an extension, so that a name without such a dot is all stem.
pub open spec fn is_stem_len(name: Seq<u16>, r: int) -> bool {
    &&& 0 <= r <= name.len()
    &&& r < name.len() ==> 1 <= r && name[r] == DOT
    &&& forall|k: int| r < k < name.len() ==> #[trigger] name[k] != DOT
    &&& r == name.len() ==> forall|k: int| 1 <= k < name.len() ==> #[trigger] name[k] != DOT
}

/// Length of the file stem, matching `Path::file_stem`: everything before the
/// last `.`, except that a leading `.` never starts an extension.
pub fn file_stem_len(name: &[u16]) -> (r: usize)
    ensures
        is_stem_len(name@, r as int),
{
    let n: usize = name.len();
    let mut k: usize = n;
    while k > 1
        invariant
            n == name@.len(),
            k <= n,
            forall|j: int| k <= j < n ==> #[trigger] name@[j] != DOT,
        decreases k,
    {
        if name[k - 1] == DOT {
            return k - 1;
        }
        k -= 1;
    }
    n
}

/// `wide` holds exactly the bytes of `ascii`, each widened to a code unit.
pub open spec fn spec_eq_ascii(wide: Seq<u16>, ascii: Seq<u8>) -> bool {
    &&& wide.len() == ascii.len()
    &&& forall|i: int| 0 <= i < wide.len() ==> wide[i] == ascii[i] as u16
}

/// Case-sensitive comparison of a UTF-16 slice against an ASCII string.
pub fn eq_ascii(wide: &[u16], ascii: &[u8]) -> (r: bool)
    ensures
        r == spec_eq_ascii(wide@, ascii@),
{
    if wide.len() != ascii.len() {
        return false;
    }
    let mut i: usize = 0;
    while i < wide.len()
        invariant
            wide@.len() == ascii@.len(),
            i <= wide@.len(),
            forall|j: int| 0 <= j < i ==> wide@[j] == ascii@[j] as u16,
        decreases wide@.len() - i,
    {
        if wide[i] != ascii[i] as u16 {
            return false;
        }
        i += 1;
    }
    true
}

/// The ASCII digit for `d`, which is below ten.
pub open spec fn digit_byte(d: nat) -> u8 {
    (0x30 + d) as u8
}

/// The shortest decimal spelling of `v` in ASCII digits, most significant first.
pub open spec fn decimal_digits(v: nat) -> Seq<u8>
    decreases v,
{
    if v < 10 {
        seq![digit_byte(v)]
    } else {
        decimal_digits(v / 10).push(digit_byte(v % 10))
    }
}

/// Format `value` as decimal ASCII into `buf`, returning the used suffix.
pub fn format_u32(value: u32, buf: &mut [u8; 10]) -> (r: &[u8])
    ensures
        r@ == decimal_digits(value as nat),
        1 <= r@.len() <= 10,
        final(buf)@ == old(buf)@.take(10 - r@.len()) + r@,
{
    proof {
        lemma_decimal_digits_fit_u32(value as nat);
    }
    let mut v: u32 = value;
    let mut i: usize = 10;
    loop
        invariant_except_break
            i == 10 || v > 0,
            decimal_digits(value as nat) == decimal_digits(v as nat) + buf@.subrange(i as int, 10),
            decimal_digits(v as nat).len() <= i,
        invariant
            i <= 10,
            v <= value,
            buf@.len() == 10,
            buf@.take(i as int) == old(buf)@.take(i as int),
        ensures
            i < 10,
            decimal_digits(value as nat) == buf@.subrange(i as int, 10),
        decreases v,
    {
        proof {
            lemma_decimal_digits_len(v as nat);
        }
        let ghost old_buf = buf@;
        let ghost old_v = v;
        let ghost old_i = i;
        i -= 1;
        let d: u8 = (v % 10) as u8;
        buf[i] = 0x30 + d;
        v /= 10;
        proof {
            assert(buf@.subrange(i as int, 10) == seq![digit_byte(d as nat)] + old_buf.subrange(old_i as int, 10));
            assert(buf@.take(i as int) == old_buf.take(i as int));
            if old_v < 10 {
                assert(decimal_digits(old_v as nat) == seq![digit_byte(old_v as nat)]);
                assert(decimal_digits(value as nat) == buf@.subrange(i as int, 10));
            } else {
                assert(decimal_digits(old_v as nat) == decimal_digits(v as nat).push(digit_byte(d as nat)));
                assert(decimal_digits(value as nat) == decimal_digits(v as nat) + buf@.subrange(i as int, 10));
            }
        }
        if v == 0 {
            break;
        }
    }
    proof {
        assert(buf@ == buf@.take(i as int) + buf@.subrange(i as int, 10));
    }
    &buf[i..10]
}

/// Ten raised to the power `k`.
pub open spec fn pow10(k: nat) -> nat
    decreases k,
{
    if k == 0 {
        1
    } else {
        10 * pow10((k - 1) as nat)
    }
}

/// A decimal spelling has at least one digit, and one digit more than the
/// spelling of the value divided by ten.
proof fn lemma_decimal_digits_len(v: nat)
    ensures
        1 <= decimal_digits(v).len(),
        v < 10 ==> decimal_digits(v).len() == 1,
        v >= 10 ==> decimal_digits(v).len() == decimal_digits(v / 10).len() + 1,
    decreases v,
{
    if v >= 10 {
        lemma_decimal_digits_len(v / 10);
    }
}

/// A value below `10^k` is spelled with at most `k` digits.
proof fn lemma_decimal_digits_bound(v: nat, k: nat)
    requires
        1 <= k,
        v < pow10(k),
    ensures
        decimal_digits(v).len() <= k,
    decreases k,
{
    lemma_decimal_digits_len(v);
    if v >= 10 {
        assert(k >= 2) by {
            if k == 1 {
                assert(pow10(1) == 10 * pow10(0));
            }
        }
        let k1 = (k - 1) as nat;
        assert(v / 10 < pow10(k1)) by (nonlinear_arith)
            requires
                v < pow10(k),
                pow10(k) == 10 * pow10(k1),
        ;
        lemma_decimal_digits_bound(v / 10, k1);
    }
}

/// Every `u32` is spelled with at most ten digits.
proof fn lemma_decimal_digits_fit_u32(v: nat)
    requires
        v <= u32::MAX,
    ensures
        decimal_digits(v).len() <= 10,
{
    reveal_with_fuel(pow10, 11);
    assert(pow10(10) == 10000000000nat);
    lemma_decimal_digits_bound(v, 10);
}

/// The number that a run of ASCII decimal digits spells, most significant first.
pub open spec fn digits_value(digits: Seq<u8>) -> nat
    decreases digits.len(),
{
    if digits.len() == 0 {
        0
    } else {
        digits_value(digits.drop_last()) * 10 + (digits.last() - 0x30) as nat
    }
}

/// `b` is an ASCII decimal digit.
pub open spec fn is_digit(b: u8) -> bool {
    0x30 <= b <= 0x39
}

/// Decimal formatting can be read back: the digits of `v` are ASCII digits,
/// the first is `0` only for zero itself, and they spell `v` again.
pub proof fn lemma_decimal_digits_roundtrip(v: nat)
    ensures
        digits_value(decimal_digits(v)) == v,
        forall|i: int| 0 <= i < decimal_digits(v).len() ==> is_digit(#[trigger] decimal_digits(v)[i]),
        decimal_digits(v)[0] == 0x30 <==> v == 0,
    decreases v,
{
    lemma_decimal_digits_len(v);
    if v >= 10 {
        lemma_decimal_digits_roundtrip(v / 10);
        let d = decimal_digits(v);
        assert(d.drop_last() =~= decimal_digits(v / 10));
        assert forall|i: int| 0 <= i < d.len() implies is_digit(#[trigger] d[i]) by {
            if i < d.len() - 1 {
                assert(d[i] == decimal_digits(v / 10)[i]);
            }
        }
        assert(d[0] == decimal_digits(v / 10)[0]);
        assert(d.last() == digit_byte(v % 10));
        assert(digit_byte(v % 10) - 0x30 == v % 10);
        assert((v / 10) * 10 + v % 10 == v) by (nonlinear_arith);
        assert(digits_value(d) == digits_value(d.drop_last()) * 10 + (d.last() - 0x30) as nat);
    } else {
        assert(decimal_digits(v).drop_last() =~= Seq::<u8>::empty());
        assert(digit_byte(v) - 0x30 == v);
        assert(digits_value(decimal_digits(v)) == digits_value(Seq::<u8>::empty()) * 10 + (digit_byte(v) - 0x30) as nat);
    }
}

/// Two values with the same decimal spelling are the same value.
pub proof fn lemma_decimal_digits_injective(v: nat, w: nat)
    requires
        decimal_digits(v) == decimal_digits(w),
    ensures
        v == w,
{
    lemma_decimal_digits_roundtrip(v);
    lemma_decimal_digits_roundtrip(w);
}

/// What follows the program argument never moves its end: once the program
/// argument of `cmdline` ends before the end of `cmdline`, any text appended
/// to the command line leaves that end where it is.
pub proof fn lemma_program_end_ignores_tail(cmdline: Seq<u16>, tail: Seq<u16>)
    requires
        program_end(cmdline) < cmdline.len(),
    ensures
        program_end(cmdline + tail) == program_end(cmdline),
{
    let r: int = program_end(cmdline);
    let whole = cmdline + tail;
    lemma_program_end_unique(cmdline, r);
    assert forall|j: int| 0 <= j <= r implies ends_program_at(whole, j) == ends_program_at(cmdline, j) by {
        assert(whole.take(j) =~= cmdline.take(j));
        assert(whole[j] == cmdline[j]);
    }
    lemma_program_end_unique(whole, r);
}

/// The stem length is one number and one only.
pub proof fn lemma_stem_len_unique(name: Seq<u16>, r1: int, r2: int)
    requires
        is_stem_len(name, r1),
        is_stem_len(name, r2),
    ensures
        r1 == r2,
{
    if r1 < r2 {
        assert(name[r1] == DOT);
    } else if r2 < r1 {
        assert(name[r2] == DOT);
    }
}

/// Giving a name an extension makes the name its stem: for a non-empty `stem`
/// and an extension without a dot, the stem of `stem.ext` is `stem`.
pub proof fn lemma_stem_of_extended_name(stem: Seq<u16>, ext: Seq<u16>)
    requires
        stem.len() >= 1,
        forall|k: int| 0 <= k < ext.len() ==> #[trigger] ext[k] != DOT,
    ensures
        is_stem_len(stem + seq![DOT] + ext, stem.len() as int),
{
    let name = stem + seq![DOT] + ext;
    assert(name[stem.len() as int] == DOT);
    assert forall|k: int| stem.len() < k < name.len() implies #[trigger] name[k] != DOT by {
        assert(name[k] == ext[k - stem.len() - 1]);
    }
}

/// The quotes of two pieces of text add up.
pub(crate) proof fn lemma_quote_count_concat(a: Seq<u16>, b: Seq<u16>)
    ensures
        quote_count(a + b) == quote_count(a) + quote_count(b),
    decreases b.len(),
{
    if b.len() == 0 {
        assert(a + b =~= a);
    } else {
        lemma_quote_count_concat(a, b.drop_last());
        assert((a + b).drop_last() =~= a + b.drop_last());
        assert((a + b).last() == b.last());
    }
}

/// A lone quote is one quote.
pub(crate) proof fn lemma_quote_count_single_quote()
    ensures
        quote_count(seq![QUOTE]) == 1,
{
    let q: Seq<u16> = seq![QUOTE];
    assert(q.drop_last() =~= Seq::<u16>::empty());
    assert(quote_count(Seq::<u16>::empty()) == 0);
    assert(q.last() == QUOTE);
    assert(quote_count(q) == quote_count(q.drop_last()) + 1);
}

/// Text without quotes has no quotes to count.
pub(crate) proof fn lemma_quote_count_none(a: Seq<u16>)
    requires
        forall|k: int| 0 <= k < a.len() ==> #[trigger] a[k] != QUOTE,
    ensures
        quote_count(a) == 0,
    decreases a.len(),
{
    if a.len() > 0 {
        lemma_quote_count_none(a.drop_last());
    }
}


/// Only a space (0x20) or a tab (0x09), as a whole code unit, ends an unquoted
/// program argument: after any run of spaces and tabs, a non-empty program
/// that holds no 0x20, 0x09 or 0x22 ends right where a 0x20 or 0x09 follows
/// it, whatever comes after, and a command line that is just such a program
/// is all program argument.
pub proof fn lemma_unquoted_program_end(lead: Seq<u16>, program: Seq<u16>, blank: u16, rest: Seq<u16>)
    requires
        forall|k: int| 0 <= k < lead.len() ==> #[trigger] lead[k] == 0x20u16 || lead[k] == 0x09u16,
        program.len() >= 1,
        forall|k: int| 0 <= k < program.len() ==>
            #[trigger] program[k] != 0x20u16 && program[k] != 0x09u16 && program[k] != 0x22u16,
        blank == 0x20u16 || blank == 0x09u16,
    ensures
        program_end(lead + program + seq![blank] + rest) == lead.len() + program.len(),
        program_end(lead + program) == lead.len() + program.len(),
{
    let head = lead + program;
    let whole = head + seq![blank] + rest;
    let n = head.len() as int;
    let m = lead.len() as int;
    assert forall|k: int| 0 <= k < head.len() implies #[trigger] head[k] != QUOTE by {
        if k < m {
            assert(head[k] == lead[k]);
        } else {
            assert(head[k] == program[k - m]);
        }
    }
    assert forall|j: int| 0 <= j < n implies !ends_program_at(whole, j) && !ends_program_at(head, j) by {
        if j < m {
            assert(whole.take(j) =~= lead.take(j));
            assert(head.take(j) =~= lead.take(j));
            assert forall|k: int| 0 <= k < j implies is_blank(#[trigger] lead.take(j)[k]) by {
                assert(lead.take(j)[k] == lead[k]);
            }
        } else {
            assert(whole[j] == program[j - m]);
            assert(head[j] == program[j - m]);
        }
    }
    assert(whole.take(n) =~= head);
    lemma_quote_count_none(head);
    assert(head[m] == program[0]);
    assert(!all_blank(head));
    assert(whole[n] == blank);
    assert(ends_program_at(whole, n));
    lemma_program_end_unique(whole, n);
    lemma_program_end_unique(head, n);
}

/// A quoted program argument ends at its closing quote: after any run of
/// spaces and tabs, a program in double quotes (0x22) that holds no quote
/// inside, spaces and tabs allowed, ends right after the closing quote where
/// a space or tab follows.
pub proof fn lemma_quoted_program_end(lead: Seq<u16>, inner: Seq<u16>, blank: u16, rest: Seq<u16>)
    requires
        forall|k: int| 0 <= k < lead.len() ==> #[trigger] lead[k] == 0x20u16 || lead[k] == 0x09u16,
        forall|k: int| 0 <= k < inner.len() ==> #[trigger] inner[k] != 0x22u16,
        blank == 0x20u16 || blank == 0x09u16,
    ensures
        program_end(lead + seq![0x22u16] + inner + seq![0x22u16] + seq![blank] + rest)
            == lead.len() + inner.len() + 2,
{
    let m = lead.len() as int;
    let n = m + inner.len() + 2;
    let quoted = seq![0x22u16] + inner + seq![0x22u16];
    let whole = lead + quoted + seq![blank] + rest;
    assert(whole =~= lead + seq![0x22u16] + inner + seq![0x22u16] + seq![blank] + rest);
    lemma_quote_count_none(inner);
    lemma_quote_count_single_quote();
    assert forall|k: int| 0 <= k < lead.len() implies #[trigger] lead[k] != QUOTE by {}
    lemma_quote_count_none(lead);
    assert forall|j: int| 0 <= j < n implies !ends_program_at(whole, j) by {
        if j < m {
            assert(whole.take(j) =~= lead.take(j));
            assert forall|k: int| 0 <= k < j implies is_blank(#[trigger] lead.take(j)[k]) by {
                assert(lead.take(j)[k] == lead[k]);
            }
        } else if j == m || j == n - 1 {
            assert(whole[j] == QUOTE);
        } else {
            let part = inner.take(j - m - 1);
            assert(whole.take(j) =~= lead + (seq![QUOTE] + part));
            assert forall|k: int| 0 <= k < part.len() implies #[trigger] part[k] != QUOTE by {
                assert(part[k] == inner[k]);
            }
            lemma_quote_count_none(part);
            lemma_quote_count_concat(seq![QUOTE], part);
            lemma_quote_count_concat(lead, seq![QUOTE] + part);
        }
    }
    assert(whole.take(n) =~= lead + ((seq![QUOTE] + inner) + seq![QUOTE]));
    lemma_quote_count_concat(seq![QUOTE], inner);
    lemma_quote_count_concat(seq![QUOTE] + inner, seq![QUOTE]);
    lemma_quote_count_concat(lead, (seq![QUOTE] + inner) + seq![QUOTE]);
    assert(whole.take(n)[m] == QUOTE);
    assert(whole[n] == blank);
    assert(ends_program_at(whole, n));
    lemma_program_end_unique(whole, n);
}

/// ASCII comparison is equality with the widened bytes: `wide` matches
/// `ascii` exactly when it is `ascii` with each byte zero-extended to 16 bits,
/// so case and every high byte count.
pub proof fn lemma_eq_ascii_is_widened_equality(wide: Seq<u16>, ascii: Seq<u8>)
    ensures
        spec_eq_ascii(wide, ascii) <==> wide == ascii.map_values(|b: u8| b as u16),
{
    if wide == ascii.map_values(|b: u8| b as u16) {
        assert forall|i: int| 0 <= i < wide.len() implies wide[i] == ascii[i] as u16 by {}
    }
    if spec_eq_ascii(wide, ascii) {
        assert(wide =~= ascii.map_values(|b: u8| b as u16));
    }
}

/// A name without a full stop (0x2E) after its first code unit is all stem,
/// and a name that has one ends its stem at the last such full stop.
pub proof fn lemma_stem_len_literal(name: Seq<u16>, r: int)
    requires
        is_stem_len(name, r),
    ensures
        (forall|k: int| 1 <= k < name.len() ==> #[trigger] name[k] != 0x2Eu16) ==> r == name.len(),
        r < name.len() ==> 1 <= r && name[r] == 0x2Eu16
            && forall|k: int| r < k < name.len() ==> #[trigger] name[k] != 0x2Eu16,
{
    if r < name.len() {
        assert(name[r] == DOT);
    }
}

/// Giving a name an extension cuts the stem there: for a non-empty stem and
/// an extension without a full stop (0x2E), whatever else either holds, the
/// stem of `stem.ext` is `stem`.
pub proof fn lemma_stem_of_extended_name_literal(stem: Seq<u16>, ext: Seq<u16>, r: int)
    requires
        stem.len() >= 1,
        forall|k: int| 0 <= k < ext.len() ==> #[trigger] ext[k] != 0x2Eu16,
        is_stem_len(stem + seq![0x2Eu16] + ext, r),
    ensures
        r == stem.len(),
{
    lemma_stem_of_extended_name(stem, ext);
    lemma_stem_len_unique(stem + seq![0x2Eu16] + ext, r, stem.len() as int);
}

} // verus!
