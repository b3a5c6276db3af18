//! Text that the dashboard shows: uptimes, the server's label and tube
//! names cut to a width.

use vstd::prelude::*;
use vstd::arithmetic::div_mod::lemma_fundamental_div_mod_converse;
use vstd::string::StringSliceAdditionalSpecFns;
use vstd::utf8::{encode_utf8, is_char_boundary};

use crate::number::{decimal, push_decimal};
use crate::outline::{pad, push_pad};
use crate::text::{chars_of, has_prefix, push_char};

verus! {

/// An uptime of `seconds` as days, hours and minutes: `"{d}d {h}h {m}m"`,
/// without the days when there are none, and without the hours too when
/// there are none of either.
pub open spec fn uptime_text(seconds: nat) -> Seq<char> {
    let days = seconds / 86400;
    let hours = (seconds % 86400) / 3600;
    let mins = (seconds % 3600) / 60;
    if days > 0 {
        decimal(days) + seq!['d', ' '] + decimal(hours) + seq!['h', ' '] + decimal(mins) + seq!['m']
    } else if hours > 0 {
        decimal(hours) + seq!['h', ' '] + decimal(mins) + seq!['m']
    } else {
        decimal(mins) + seq!['m']
    }
}

/// An uptime of `days` days, `hours` hours, `minutes` minutes and
/// `seconds` seconds reads as those days (when there are any), hours
/// (when there are any of either) and minutes; the seconds are dropped.
pub proof fn law_uptime_parts(days: nat, hours: nat, minutes: nat, seconds: nat)
    requires
        hours < 24,
        minutes < 60,
        seconds < 60,
    ensures
        uptime_text(days * 86400 + hours * 3600 + minutes * 60 + seconds) == if days > 0 {
            decimal(days) + "d "@ + decimal(hours) + "h "@ + decimal(minutes) + "m"@
        } else if hours > 0 {
            decimal(hours) + "h "@ + decimal(minutes) + "m"@
        } else {
            decimal(minutes) + "m"@
        },
{
    reveal_strlit("d ");
    reveal_strlit("h ");
    reveal_strlit("m");
    let x: int = (days * 86400 + hours * 3600 + minutes * 60 + seconds) as int;
    let in_day: int = (hours * 3600 + minutes * 60 + seconds) as int;
    let in_hour: int = (minutes * 60 + seconds) as int;
    assert(0 <= in_day < 86400) by (nonlinear_arith)
        requires
            hours < 24,
            minutes < 60,
            seconds < 60,
            in_day == hours * 3600 + minutes * 60 + seconds,
    ;
    lemma_fundamental_div_mod_converse(x, 86400, days as int, in_day);
    lemma_fundamental_div_mod_converse(in_day, 3600, hours as int, in_hour);
    assert(x == (days * 24 + hours) * 3600 + in_hour) by (nonlinear_arith)
        requires
            x == days * 86400 + hours * 3600 + in_hour,
    ;
    lemma_fundamental_div_mod_converse(x, 3600, (days * 24 + hours) as int, in_hour);
    lemma_fundamental_div_mod_converse(in_hour, 60, minutes as int, seconds as int);
    let n = x as nat;
    assert(n / 86400 == days);
    assert((n % 86400) / 3600 == hours);
    assert((n % 3600) / 60 == minutes);
    assert(seq!['d', ' '] =~= "d "@);
    assert(seq!['h', ' '] =~= "h "@);
    assert(seq!['m'] =~= "m"@);
}

/// Formats an uptime in seconds as days, hours and minutes.
pub fn format_uptime(seconds: u64) -> (s: String)
    ensures
        s@ == uptime_text(seconds as nat),
{
    let days = seconds / 86400;
    let hours = (seconds % 86400) / 3600;
    let mins = (seconds % 3600) / 60;
    let mut s = String::new();
    if days > 0 {
        push_decimal(&mut s, days);
        push_char(&mut s, 'd');
        push_char(&mut s, ' ');
        push_decimal(&mut s, hours);
        push_char(&mut s, 'h');
        push_char(&mut s, ' ');
        push_decimal(&mut s, mins);
        push_char(&mut s, 'm');
    } else if hours > 0 {
        push_decimal(&mut s, hours);
        push_char(&mut s, 'h');
        push_char(&mut s, ' ');
        push_decimal(&mut s, mins);
        push_char(&mut s, 'm');
    } else {
        push_decimal(&mut s, mins);
        push_char(&mut s, 'm');
    }
    assert(s@ =~= uptime_text(seconds as nat));
    s
}

/// The first `max_len` bytes of `name`, or all of it when it is no
/// longer than that.
pub fn truncate_name(name: &str, max_len: usize) -> (r: &str)
    requires
        name.spec_bytes().len() > max_len ==> is_char_boundary(name.spec_bytes(), max_len as int),
    ensures
        r.spec_bytes() == if name.spec_bytes().len() > max_len {
            name.spec_bytes().take(max_len as int)
        } else {
            name.spec_bytes()
        },
{
    let byte_len = name.as_bytes().len();
    if byte_len > max_len {
        let (head, _) = name.split_at(max_len);
        assert(head.spec_bytes() =~= name.spec_bytes().take(max_len as int));
        head
    } else {
        name
    }
}

/// The most that a column of names takes, in bytes.
pub const NAME_COLUMN_LIMIT: usize = 20;

/// The largest of `lengths`, 0 when there is none.
pub open spec fn widest(lengths: Seq<usize>) -> nat
    decreases lengths.len(),
{
    if lengths.len() == 0 {
        0
    } else {
        let rest = widest(lengths.drop_last());
        if lengths.last() > rest {
            lengths.last() as nat
        } else {
            rest
        }
    }
}

/// The largest of some lengths is at least each of them, and is one of
/// them when there are any.
pub proof fn law_widest(lengths: Seq<usize>)
    ensures
        forall|i: int| 0 <= i < lengths.len() ==> #[trigger] lengths[i] <= widest(lengths),
        lengths.len() == 0 ==> widest(lengths) == 0,
        lengths.len() > 0 ==> exists|i: int| 0 <= i < lengths.len() && #[trigger] lengths[i] == widest(lengths),
    decreases lengths.len(),
{
    if lengths.len() > 0 {
        let init = lengths.drop_last();
        law_widest(init);
        assert forall|i: int| 0 <= i < lengths.len() implies #[trigger] lengths[i] <= widest(lengths) by {
            if i < init.len() {
                assert(lengths[i] == init[i]);
            }
        }
        if lengths.last() > widest(init) {
            assert(lengths[lengths.len() - 1] == widest(lengths));
        } else if init.len() > 0 {
            let j = choose|j: int| 0 <= j < init.len() && #[trigger] init[j] == widest(init);
            assert(lengths[j] == init[j]);
        } else {
            assert(lengths[0] == lengths.last());
        }
    }
}

/// The width of a column of names whose byte lengths are `lengths`: the
/// longest, but no more than [`NAME_COLUMN_LIMIT`].
pub fn name_column_width(lengths: &[usize]) -> (w: usize)
    ensures
        w == if widest(lengths@) > NAME_COLUMN_LIMIT {
            NAME_COLUMN_LIMIT as nat
        } else {
            widest(lengths@)
        },
{
    let n = lengths.len();
    let mut longest: usize = 0;
    for i in 0..n
        invariant
            n == lengths@.len(),
            longest == widest(lengths@.take(i as int)),
    {
        assert(lengths@.take(i + 1).drop_last() =~= lengths@.take(i as int));
        if lengths[i] > longest {
            longest = lengths[i];
        }
    }
    assert(lengths@.take(n as int) =~= lengths@);
    if longest > NAME_COLUMN_LIMIT {
        NAME_COLUMN_LIMIT
    } else {
        longest
    }
}

/// The columns left for a tube's bar in a chart `inner_width` columns
/// wide, whose names take `name_width`: a row also holds two spaces, the
/// tube's total in eight columns and twelve for its processing time.
pub fn bar_width(inner_width: u16, name_width: usize) -> (w: usize)
    ensures
        w == if inner_width > name_width + 22 {
            inner_width - name_width - 22
        } else {
            0
        },
{
    let width = inner_width as usize;
    if name_width < width && width - name_width > 22 {
        width - name_width - 22
    } else {
        0
    }
}

/// A label fitted to a segment `width` columns wide (a column per byte):
/// centred between spaces, the extra space on the right, when it fits;
/// otherwise its first `width` bytes.
pub fn fit_label(label: &str, width: usize) -> (s: String)
    requires
        label.spec_bytes().len() > width ==> is_char_boundary(label.spec_bytes(), width as int),
    ensures
        label.spec_bytes().len() <= width ==> {
            let spare = (width - label.spec_bytes().len()) as nat;
            s@ == pad(spare / 2) + label@ + pad((spare - spare / 2) as nat)
        },
        label.spec_bytes().len() > width ==> encode_utf8(s@) == label.spec_bytes().take(width as int),
{
    let len = label.as_bytes().len();
    if width >= len {
        let spare = width - len;
        let left = spare / 2;
        let right = spare - left;
        let mut s = String::new();
        push_pad(&mut s, left);
        s.append(label);
        push_pad(&mut s, right);
        s
    } else {
        let (head, _) = label.split_at(width);
        let s = head.to_owned();
        assert(head.spec_bytes() =~= label.spec_bytes().take(width as int));
        s
    }
}

/// The label of the server: its version, after `beanstalkd ` unless the
/// version starts with `tuber`, then ` — ` and its name when it has one.
pub open spec fn server_label_text(version: Seq<char>, name: Seq<char>) -> Seq<char> {
    let shown = if "tuber"@.is_prefix_of(version) {
        version
    } else {
        "beanstalkd "@ + version
    };
    if name.len() == 0 {
        shown
    } else {
        shown + " \u{2014} "@ + name
    }
}

/// The label of the server, from its version and its name.
pub fn server_label(version: &str, name: &str) -> (s: String)
    ensures
        s@ == server_label_text(version@, name@),
{
    let v = chars_of(version);
    let t = chars_of("tuber");
    let mut s = String::new();
    if !has_prefix(v.as_slice(), t.as_slice()) {
        s.append("beanstalkd ");
    }
    s.append(version);
    if !name.is_empty() {
        s.append(" \u{2014} ");
        s.append(name);
    }
    s
}

} // verus!
