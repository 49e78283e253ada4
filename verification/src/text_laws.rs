//! What holds of the text that the library builds and reads, and of putting things in order.

use vstd::prelude::*;

use crate::catalog::CatalogError;
use crate::error::MultiRaftError;
use crate::file_log::DataError;
use crate::group_setup::SettingsError;
use crate::membership::transient_membership_err;
use crate::order;
use crate::order::{pair_less, stable_order};
use crate::text;
use crate::text::{
    concat, decimal_text, hex_text, is_blank, join_path, number_list_text, same_text,
    text_contains, trim_trailing_slashes,
};

verus! {

/// The number that a row of decimal digits stands for.
pub open spec fn number_of(digits: Seq<char>) -> int
    decreases digits.len(),
{
    if digits.len() == 0 {
        0
    } else {
        10 * number_of(digits.drop_last()) + (digits.last() as int - '0' as int)
    }
}

/// A number in decimal reads as that number: digits alone, and no zero in front of others.
pub proof fn law_decimal_reads_as_the_number(n: u64, r: String)
    requires
        call_ensures(decimal_text, (n,), r),
    ensures
        number_of(r@) == n,
        r@.len() > 0,
        forall|i: int| 0 <= i < r@.len() ==> '0' <= #[trigger] r@[i] <= '9',
        r@.len() > 1 ==> r@[0] != '0',
{
    text::lemma_decimal_digits(n as nat);
    lemma_number_of(n as nat);
}

proof fn lemma_number_of(n: nat)
    ensures
        number_of(text::decimal(n)) == n,
        n > 0 ==> text::decimal(n)[0] != '0',
        n == 0 ==> text::decimal(n).len() == 1,
    decreases n,
{
    let d = text::decimal(n);
    text::lemma_decimal_digits(n);
    if n < 10 {
        assert(d.drop_last() =~= Seq::<char>::empty());
        assert(number_of(d.drop_last()) == 0);
    } else {
        lemma_number_of(n / 10);
        text::lemma_decimal_digits(n / 10);
        assert(d.drop_last() =~= text::decimal(n / 10));
        assert(d[0] == text::decimal(n / 10)[0]);
    }
}

/// Bytes in hexadecimal take two digits each, and different bytes look different.
pub proof fn law_hex_tells_bytes_apart(a: &[u8], b: &[u8], ha: String, hb: String, i: int)
    requires
        call_ensures(hex_text, (a,), ha),
        call_ensures(hex_text, (b,), hb),
    ensures
        ha@.len() == 2 * a@.len(),
        ha@ == hb@ <==> a@ == b@,
        0 <= i < ha@.len() ==> ('0' <= ha@[i] <= '9') || ('a' <= ha@[i] <= 'f'),
{
    assert(ha@.len() == 2 * a@.len());
    assert(hb@.len() == 2 * b@.len());
    if ha@ == hb@ {
        assert(a@.len() == b@.len());
        assert forall|k: int| 0 <= k < a@.len() implies #[trigger] a@[k] == b@[k] by {
            assert(ha@[2 * k] == hb@[2 * k]);
            assert(ha@[2 * k + 1] == hb@[2 * k + 1]);
            lemma_nibbles((a@[k] / 16) as nat, (b@[k] / 16) as nat);
            lemma_nibbles((a@[k] % 16) as nat, (b@[k] % 16) as nat);
        }
        assert(a@ =~= b@);
    }
    if 0 <= i < ha@.len() {
        assert(ha@[i] == text::hex(a@)[i]);
        lemma_nibbles((a@[i / 2] / 16) as nat, 0);
        lemma_nibbles((a@[i / 2] % 16) as nat, 0);
    }
}

proof fn lemma_nibbles(x: nat, y: nat)
    requires
        x < 16,
        y < 16,
    ensures
        text::nibble_char(x) == text::nibble_char(y) ==> x == y,
        ('0' <= text::nibble_char(x) <= '9') || ('a' <= text::nibble_char(x) <= 'f'),
{
}

/// A text holds another exactly where it can be parted into something, that text, and something.
pub proof fn law_contained_text_parts_the_whole(
    hay: &str,
    needle: &str,
    r: bool,
    before: Seq<char>,
    after: Seq<char>,
)
    requires
        call_ensures(text_contains, (hay, needle), r),
    ensures
        hay@ == before + needle@ + after ==> r,
        r ==> exists|a: Seq<char>, b: Seq<char>| hay@ == #[trigger] (a + needle@ + b),
{
    if hay@ == before + needle@ + after {
        let at = before.len() as int;
        assert(hay@.subrange(at, at + needle@.len()) =~= needle@);
        assert(text::occurs_at(hay@, needle@, at));
    }
    if r {
        let at = choose|at: int| #[trigger] text::occurs_at(hay@, needle@, at);
        let a = hay@.take(at);
        let b = hay@.skip(at + needle@.len());
        assert(hay@ =~= a + needle@ + b);
    }
}

/// What is left of a text without its trailing slashes ends in none, and only slashes were taken.
pub proof fn law_only_trailing_slashes_are_taken(s: &str, r: String, i: int)
    requires
        call_ensures(trim_trailing_slashes, (s,), r),
    ensures
        r@.len() <= s@.len(),
        r@ == s@.take(r@.len() as int),
        r@.len() > 0 ==> r@.last() != '/',
        r@.len() <= i < s@.len() ==> s@[i] == '/',
{
    lemma_trimmed(s@, i);
}

proof fn lemma_trimmed(s: Seq<char>, i: int)
    ensures
        ({
            let r = text::without_trailing_slashes(s);
            &&& r.len() <= s.len()
            &&& r == s.take(r.len() as int)
            &&& r.len() > 0 ==> r.last() != '/'
            &&& r.len() <= i < s.len() ==> s[i] == '/'
        }),
    decreases s.len(),
{
    let r = text::without_trailing_slashes(s);
    if s.len() > 0 && s.last() == '/' {
        lemma_trimmed(s.drop_last(), i);
        assert(s.drop_last().take(r.len() as int) =~= s.take(r.len() as int));
    } else {
        assert(s.take(s.len() as int) =~= s);
    }
}

/// A path below a directory starts with the directory and ends with the name, with one slash between
/// them where the directory has a name that ends in none.
pub proof fn law_path_leads_below_its_directory(dir: &str, name: &str, r: String)
    requires
        call_ensures(join_path, (dir, name), r),
    ensures
        r@.len() >= dir@.len() + name@.len(),
        r@.take(dir@.len() as int) == dir@,
        r@.skip(r@.len() - name@.len()) == name@,
        dir@.len() > 0 && dir@.last() != '/' ==> r@.len() == dir@.len() + 1 + name@.len()
            && r@[dir@.len() as int] == '/',
        dir@.len() == 0 || dir@.last() == '/' ==> r@.len() == dir@.len() + name@.len(),
{
    reveal_strlit("/");
    assert(r@.take(dir@.len() as int) =~= dir@);
    assert(r@.skip(r@.len() - name@.len()) =~= name@);
}

/// A text is blank exactly where it has nothing but white space on it.
pub proof fn law_blank_is_white_space(s: &str, r: bool, i: int)
    requires
        call_ensures(is_blank, (s,), r),
    ensures
        r && 0 <= i < s@.len() ==> text::is_white_space(s@[i]),
        s@.len() == 0 ==> r,
        (forall|k: int| 0 <= k < s@.len() ==> #[trigger] s@[k] == ' ' || s@[k] == '\t' || s@[k]
            == '\n' || s@[k] == '\r') ==> r,
        0 <= i < s@.len() && 'a' <= s@[i] <= 'z' ==> !r,
        0 <= i < s@.len() && (s@[i] == '{' || s@[i] == '"') ==> !r,
        r && 0 <= i < s@.len() ==> {
            let n = s@[i] as u32;
            n == 0x20 || 0x9 <= n <= 0xD || n == 0x85 || n == 0xA0 || n == 0x1680 || 0x2000 <= n
                <= 0x200A || n == 0x2028 || n == 0x2029 || n == 0x202F || n == 0x205F || n == 0x3000
        },
        s@.len() == 1 && ({
            let n = s@[0] as u32;
            n == 0x20 || 0x9 <= n <= 0xD || n == 0x85 || n == 0xA0 || n == 0x1680 || 0x2000 <= n
                <= 0x200A || n == 0x2028 || n == 0x2029 || n == 0x202F || n == 0x205F || n == 0x3000
        }) ==> r,
{
    if r && 0 <= i < s@.len() {
        assert(text::is_white_space(s@[i]));
    }
}

/// Two texts are put together in order, and are the same where their characters are.
pub proof fn law_texts_are_put_together(a: &str, b: &str, r: String, same: bool)
    requires
        call_ensures(concat, (a, b), r),
        call_ensures(same_text, (a, b), same),
    ensures
        r@ == a@ + b@,
        same <==> a@ == b@,
{
}

/// A list of numbers names each of them: one more number is put behind the others.
pub proof fn law_number_list_names_each(
    s: &[u64],
    r: String,
    init: &[u64],
    before: String,
    last: u64,
    one: String,
)
    requires
        call_ensures(number_list_text, (s,), r),
        call_ensures(number_list_text, (init,), before),
        call_ensures(decimal_text, (last,), one),
        s@ == init@.push(last),
    ensures
        init@.len() == 0 ==> before@.len() == 0 && r@ == one@,
        init@.len() > 0 ==> r@ == before@ + ", "@ + one@,
{
    assert(s@.drop_last() =~= init@);
}

/// Pairs are put in order by their first number and then by their second.
pub proof fn law_pairs_are_ordered(a: (u64, u64), b: (u64, u64), r: bool, back: bool)
    requires
        call_ensures(pair_less, (a, b), r),
        call_ensures(pair_less, (b, a), back),
    ensures
        a.0 < b.0 ==> r,
        a.0 == b.0 ==> (r <==> a.1 < b.1),
        a.0 > b.0 ==> !r,
        !(r && back),
        a != b ==> r || back,
{
}

/// Putting things in order leads to each of them once, so that they rise; those that are alike keep
/// the order they had.
pub proof fn law_order_is_stable(keys: &Vec<(u64, u64)>, r: Vec<usize>, i: int, j: int, p: int)
    requires
        call_ensures(stable_order, (keys,), r),
    ensures
        r@.len() == keys@.len(),
        0 <= i < r@.len() ==> r@[i] < keys@.len(),
        0 <= p < keys@.len() ==> exists|q: int| 0 <= q < r@.len() && #[trigger] r@[q] == p,
        0 <= i < j < r@.len() ==> {
            let a = keys@[r@[i] as int];
            let b = keys@[r@[j] as int];
            &&& a.0 < b.0 || (a.0 == b.0 && a.1 <= b.1)
            &&& a == b ==> r@[i] < r@[j]
            &&& r@[i] != r@[j]
        },
{
    if 0 <= p < keys@.len() {
        assert(order::has_position(r@, p));
    }
    if 0 <= i < j < r@.len() {
        assert(order::goes_before(keys@, r@[i] as int, r@[j] as int));
    }
}

/// What is wrong with log data is told with the file and the place.
pub proof fn law_data_errors_tell_the_place(e: &DataError, r: String)
    requires
        call_ensures(DataError::message, (e,), r),
    ensures
        *e is Encode ==> r@ == e->Encode_0@,
        *e is Decode ==> r@ == e->Decode_0@,
        *e is Truncated ==> text::contains_text(r@, e->Truncated_path@) && text::contains_text(
            r@,
            text::decimal(e->at as nat),
        ),
        *e is Trailing ==> text::contains_text(r@, e->Trailing_path@) && text::contains_text(
            r@,
            text::decimal(e->count as nat),
        ),
        *e is BadLine ==> text::contains_text(r@, e->BadLine_path@) && text::contains_text(
            r@,
            text::decimal(e->line as nat),
        ) && text::contains_text(r@, e->reason@),
{
    let none = Seq::<char>::empty();
    if *e is Truncated {
        let n = text::decimal(e->at as nat);
        assert(r@ =~= none + e->Truncated_path@ + (": truncated frame at "@ + n));
        lemma_holds(none, e->Truncated_path@, ": truncated frame at "@ + n);
        assert(r@ =~= (e->Truncated_path@ + ": truncated frame at "@) + n + none);
        lemma_holds(e->Truncated_path@ + ": truncated frame at "@, n, none);
    }
    if *e is Trailing {
        let n = text::decimal(e->count as nat);
        assert(r@ =~= none + e->Trailing_path@ + (": trailing "@ + n + " bytes"@));
        lemma_holds(none, e->Trailing_path@, ": trailing "@ + n + " bytes"@);
        assert(r@ =~= (e->Trailing_path@ + ": trailing "@) + n + " bytes"@);
        lemma_holds(e->Trailing_path@ + ": trailing "@, n, " bytes"@);
    }
    if *e is BadLine {
        let n = text::decimal(e->line as nat);
        let rest = ":"@ + n + ": "@ + e->reason@;
        assert(r@ =~= none + e->BadLine_path@ + rest);
        lemma_holds(none, e->BadLine_path@, rest);
        assert(r@ =~= (e->BadLine_path@ + ":"@) + n + (": "@ + e->reason@));
        lemma_holds(e->BadLine_path@ + ":"@, n, ": "@ + e->reason@);
        assert(r@ =~= (e->BadLine_path@ + ":"@ + n + ": "@) + e->reason@ + none);
        lemma_holds(e->BadLine_path@ + ":"@ + n + ": "@, e->reason@, none);
    }
}

proof fn lemma_holds(a: Seq<char>, t: Seq<char>, b: Seq<char>)
    ensures
        text::contains_text(a + t + b, t),
{
    let at = a.len() as int;
    assert((a + t + b).subrange(at, at + t.len()) =~= t);
    assert(text::occurs_at(a + t + b, t, at));
}

/// A digest that does not match is told with both digests, and settings that are refused with the
/// numbers at fault.
pub proof fn law_refusals_tell_why(
    c: &CatalogError,
    tc: String,
    s: &SettingsError,
    ts: String,
)
    requires
        call_ensures(CatalogError::message, (c,), tc),
        call_ensures(SettingsError::message, (s,), ts),
    ensures
        *c is BadMeta ==> tc@ == c->BadMeta_0@,
        *c is ShaMismatch ==> text::contains_text(tc@, c->expected@) && text::contains_text(
            tc@,
            c->actual@,
        ),
        *s is Other ==> ts@ == s->Other_0@,
        *s is ElectionTimeout ==> text::contains_text(ts@, text::decimal(s->min as nat))
            && text::contains_text(ts@, text::decimal(s->max as nat)),
        *s is BelowHeartbeat ==> text::contains_text(
            ts@,
            text::decimal(s->election_timeout_min as nat),
        ) && text::contains_text(ts@, text::decimal(s->heartbeat_interval as nat)),
{
    let none = Seq::<char>::empty();
    if *c is ShaMismatch {
        let h = "snapshot sha256 mismatch: expected "@;
        assert(tc@ =~= h + c->expected@ + (", got "@ + c->actual@));
        lemma_holds(h, c->expected@, ", got "@ + c->actual@);
        assert(tc@ =~= (h + c->expected@ + ", got "@) + c->actual@ + none);
        lemma_holds(h + c->expected@ + ", got "@, c->actual@, none);
    }
    if *s is ElectionTimeout {
        let h = "election timeout: min("@;
        let a = text::decimal(s->min as nat);
        let m = ") must be < max("@;
        let b = text::decimal(s->max as nat);
        assert(ts@ =~= h + a + (m + b + ")"@));
        lemma_holds(h, a, m + b + ")"@);
        assert(ts@ =~= (h + a + m) + b + ")"@);
        lemma_holds(h + a + m, b, ")"@);
    }
    if *s is BelowHeartbeat {
        let h = "election_timeout_min("@;
        let a = text::decimal(s->election_timeout_min as nat);
        let m = ") must be > heartbeat_interval("@;
        let b = text::decimal(s->heartbeat_interval as nat);
        assert(ts@ =~= h + a + (m + b + ")"@));
        lemma_holds(h, a, m + b + ")"@);
        assert(ts@ =~= (h + a + m) + b + ")"@);
        lemma_holds(h + a + m, b, ")"@);
    }
}

/// The error of a change that is to be tried again tells which change it was, and why.
pub proof fn law_transient_error_tells_why(label: &str, m: &str, r: MultiRaftError)
    requires
        call_ensures(transient_membership_err, (label, m), r),
    ensures
        r is Other,
        text::contains_text(r->Other_0@, label@),
        text::contains_text(r->Other_0@, m@),
{
    let none = Seq::<char>::empty();
    let end = " (retry after membership settles)"@;
    let t = r->Other_0@;
    assert(t =~= none + label@ + (": "@ + m@ + end));
    lemma_holds(none, label@, ": "@ + m@ + end);
    assert(t =~= (label@ + ": "@) + m@ + end);
    lemma_holds(label@ + ": "@, m@, end);
}

} // verus!
