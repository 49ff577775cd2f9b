//! What the collector reads from the system, parsed: network counters from
//! `/proc/net/dev`, `ip -s link` and `ifconfig`, the Wi-Fi address, the uptime
//! and CPU frequencies.
use vstd::prelude::*;
use crate::text::{
    commas_to_spaces, replace_commas, same_chars, split_at_char, split_char, lemma_find_bound, parse_u64_spec,
    chars_of, contains, contains_in, find, find_in, lowercase, string_of, to_lowercase, trim_start,
    trimmed_start, slice_of, parse_u64, second_part, second_part_of, split_lines, split_words, starts_with, lemma_lines_concat, lemma_find_take, matches_at, find_from,
    starts_with_in, trim, trimmed, u64_or_zero, views, words, lines,
};

verus! {

/// The input is one the collector cannot take: a total would overflow, or a
/// field or range that the reading needs is missing.
#[derive(Clone, Copy, PartialEq, Eq, Structural, Debug)]
pub struct Fault;

/// The counts `(received, sent)` that one line of `/proc/net/dev` adds, `None`
/// where the line has exactly eight fields (the sent bytes would be the ninth,
/// which is missing). Loopback, `dummy` and `tun` interfaces add nothing; so do
/// lines with fewer than eight fields; a field that is not a number counts 0.
pub open spec fn dev_line_counts(line: Seq<char>) -> Option<(int, int)> {
    let t = trim(line);
    if starts_with(t, seq!['l', 'o', ':']) || starts_with(t, seq!['d', 'u', 'm', 'm', 'y'])
        || starts_with(t, seq!['t', 'u', 'n']) {
        Some((0, 0))
    } else {
        let w = words(second_part(line, seq![':']));
        if w.len() > 8 {
            Some((u64_or_zero(w[0]) as int, u64_or_zero(w[8]) as int))
        } else if w.len() == 8 {
            None
        } else {
            Some((0, 0))
        }
    }
}

/// `a` added to `b`, where `b` is defined.
pub open spec fn add_counts(a: (int, int), b: Option<(int, int)>) -> Option<(int, int)> {
    match b {
        Some(b) => Some((a.0 + b.0, a.1 + b.1)),
        None => None,
    }
}

/// The counts of the lines `ls` together.
pub open spec fn dev_sum(ls: Seq<Seq<char>>) -> Option<(int, int)>
    decreases ls.len(),
{
    if ls.len() == 0 {
        Some((0, 0))
    } else {
        match dev_line_counts(ls[0]) {
            Some(a) => add_counts(a, dev_sum(ls.drop_first())),
            None => None,
        }
    }
}

/// The total bytes `(sent, received)` of the interfaces in the text of
/// `/proc/net/dev`, whose first two lines are headers.
pub open spec fn net_dev_spec(text: Seq<char>) -> Result<(u64, u64), Fault> {
    let ls = lines(text);
    let body = if ls.len() >= 2 {
        ls.skip(2)
    } else {
        seq![]
    };
    match dev_sum(body) {
        Some(c) => if c.0 <= u64::MAX && c.1 <= u64::MAX {
            Ok((c.1 as u64, c.0 as u64))
        } else {
            Err(Fault)
        },
        None => Err(Fault),
    }
}

proof fn lemma_dev_sum_nonneg(ls: Seq<Seq<char>>)
    ensures
        dev_sum(ls) matches Some(c) ==> c.0 >= 0 && c.1 >= 0,
    decreases ls.len(),
{
    if ls.len() > 0 {
        lemma_dev_sum_nonneg(ls.drop_first());
    }
}

proof fn lemma_dev_sum_concat(l1: Seq<Seq<char>>, l2: Seq<Seq<char>>)
    ensures
        dev_sum(l1 + l2) == (match (dev_sum(l1), dev_sum(l2)) {
            (Some(x), Some(y)) => Some((x.0 + y.0, x.1 + y.1)),
            _ => None,
        }),
    decreases l1.len(),
{
    if l1.len() == 0 {
        assert(l1 + l2 =~= l2);
    } else {
        assert((l1 + l2).drop_first() =~= l1.drop_first() + l2);
        assert((l1 + l2)[0] == l1[0]);
        lemma_dev_sum_concat(l1.drop_first(), l2);
    }
}

/// The `/proc/net/dev` totals add up over interface lines: with the same two
/// header lines `h` in front, the totals for the lines `a` (cut after a line's
/// end) followed by `b` are those for `a` plus those for `b`; they fail where
/// either part fails or the sum overflows.
pub proof fn lemma_net_dev_totals_add(h: Seq<char>, a: Seq<char>, b: Seq<char>)
    requires
        lines(h).len() == 2,
        h.len() > 0 && h.last() == '\n',
        a.len() == 0 || a.last() == '\n',
    ensures
        net_dev_spec(h + a) is Err || net_dev_spec(h + b) is Err ==> net_dev_spec(h + a + b) is Err,
        net_dev_spec(h + a) is Ok && net_dev_spec(h + b) is Ok ==> ({
            let (sa, ra) = net_dev_spec(h + a).unwrap();
            let (sb, rb) = net_dev_spec(h + b).unwrap();
            if sa + sb <= u64::MAX && ra + rb <= u64::MAX {
                net_dev_spec(h + a + b) == Ok::<(u64, u64), Fault>(((sa + sb) as u64, (ra + rb) as u64))
            } else {
                net_dev_spec(h + a + b) is Err
            }
        }),
{
    lemma_lines_concat(h, a);
    lemma_lines_concat(h, b);
    assert((h + a).len() == 0 || (h + a).last() == '\n');
    lemma_lines_concat(h + a, b);
    let la = lines(a);
    let lb = lines(b);
    assert((lines(h) + la).skip(2) =~= la);
    assert((lines(h) + lb).skip(2) =~= lb);
    assert((lines(h) + la + lb).skip(2) =~= la + lb);
    lemma_dev_sum_concat(la, lb);
    lemma_dev_sum_nonneg(la);
    lemma_dev_sum_nonneg(lb);
}

/// The counts one line of `/proc/net/dev` adds.
fn dev_line(line: &[char]) -> (r: Option<(u64, u64)>)
    ensures
        match dev_line_counts(line@) {
            Some(c) => r matches Some(v) && v.0 == c.0 && v.1 == c.1,
            None => r is None,
        },
{
    let t = trimmed(line);
    let lo = vec!['l', 'o', ':'];
    let dummy = vec!['d', 'u', 'm', 'm', 'y'];
    let tun = vec!['t', 'u', 'n'];
    if starts_with_in(t.as_slice(), lo.as_slice()) || starts_with_in(t.as_slice(), dummy.as_slice())
        || starts_with_in(t.as_slice(), tun.as_slice()) {
        return Some((0, 0));
    }
    let colon = vec![':'];
    assert(colon@ =~= seq![':']);
    let data = second_part_of(line, colon.as_slice());
    assert(data@ == second_part(line@, seq![':']));
    let w = split_words(data.as_slice());
    assert(views(w@).len() == w@.len());
    assert(views(w@) == words(second_part(line@, seq![':'])));
    if w.len() > 8 {
        assert(w@[0]@ == views(w@)[0]);
        assert(w@[8]@ == views(w@)[8]);
        let rx = match parse_u64(w[0].as_slice()) {
            Some(v) => v,
            None => 0,
        };
        let tx = match parse_u64(w[8].as_slice()) {
            Some(v) => v,
            None => 0,
        };
        Some((rx, tx))
    } else if w.len() == 8 {
        None
    } else {
        Some((0, 0))
    }
}

/// The total bytes `(sent, received)` of the interfaces listed in the text of
/// `/proc/net/dev`, leaving out loopback, `dummy` and `tun` interfaces.
pub fn net_dev_totals(text: &str) -> (r: Result<(u64, u64), Fault>)
    ensures
        r == net_dev_spec(text@),
{
    let cs = chars_of(text);
    let ls = split_lines(cs.as_slice());
    let ghost lv = views(ls@);
    let ghost body = if lv.len() >= 2 {
        lv.skip(2)
    } else {
        seq![]
    };
    let n = ls.len();
    let mut rx: u64 = 0;
    let mut tx: u64 = 0;
    let mut i: usize = 2;
    if n < 2 {
        assert(dev_sum(body) == Some((0int, 0int)));
        return Ok((0, 0));
    }
    assert(lv.skip(2) =~= body);
    while i < n
        invariant
            2 <= i <= n,
            n == ls@.len(),
            lv == views(ls@),
            lv == lines(text@),
            body == lv.skip(2),
            dev_sum(body) == add_counts((rx as int, tx as int), dev_sum(lv.skip(i as int))),
        decreases n - i,
    {
        assert(lv.skip(i as int).drop_first() =~= lv.skip(i + 1));
        assert(lv.skip(i as int)[0] == ls@[i as int]@);
        proof {
            lemma_dev_sum_nonneg(lv.skip(i + 1));
        }
        match dev_line(ls[i].as_slice()) {
            None => {
                return Err(Fault);
            },
            Some((a, b)) => {
                if a > u64::MAX - rx || b > u64::MAX - tx {
                    return Err(Fault);
                }
                rx = rx + a;
                tx = tx + b;
            },
        }
        i = i + 1;
    }
    assert(lv.skip(i as int) =~= Seq::<Seq<char>>::empty());
    Ok((tx, rx))
}


/// The first field of a line as a number: 0 where it has no field or the field is
/// not a number.
pub open spec fn first_number(line: Seq<char>) -> int {
    let w = words(line);
    if w.len() > 0 {
        u64_or_zero(w[0]) as int
    } else {
        0
    }
}

/// The `(received, sent)` bytes in the lines of `ip -s link`: the line after each
/// line holding `RX: ` (or else `TX: `) starts with the count of the interface
/// named above it; that line is not examined itself.
pub open spec fn ip_link_sum(ls: Seq<Seq<char>>) -> (int, int)
    decreases ls.len(),
{
    if ls.len() == 0 {
        (0, 0)
    } else if contains(ls[0], seq!['R', 'X', ':', ' ']) {
        if ls.len() >= 2 {
            let r = ip_link_sum(ls.skip(2));
            (r.0 + first_number(ls[1]), r.1)
        } else {
            (0, 0)
        }
    } else if contains(ls[0], seq!['T', 'X', ':', ' ']) {
        if ls.len() >= 2 {
            let r = ip_link_sum(ls.skip(2));
            (r.0, r.1 + first_number(ls[1]))
        } else {
            (0, 0)
        }
    } else {
        ip_link_sum(ls.drop_first())
    }
}

/// The total bytes `(sent, received)` that the output of `ip -s link` reports.
pub open spec fn ip_link_spec(text: Seq<char>) -> Result<(u64, u64), Fault> {
    let c = ip_link_sum(lines(text));
    if c.0 <= u64::MAX && c.1 <= u64::MAX {
        Ok((c.1 as u64, c.0 as u64))
    } else {
        Err(Fault)
    }
}

proof fn lemma_ip_link_sum_nonneg(ls: Seq<Seq<char>>)
    ensures
        ip_link_sum(ls).0 >= 0,
        ip_link_sum(ls).1 >= 0,
    decreases ls.len(),
{
    if ls.len() >= 2 {
        lemma_ip_link_sum_nonneg(ls.skip(2));
    }
    if ls.len() >= 1 {
        lemma_ip_link_sum_nonneg(ls.drop_first());
    }
}

/// The first field of a line as a number, 0 where there is none.
fn first_number_of(line: &[char]) -> (v: u64)
    ensures
        v == first_number(line@),
{
    let w = split_words(line);
    assert(views(w@).len() == w@.len());
    if w.len() > 0 {
        assert(w@[0]@ == views(w@)[0]);
        match parse_u64(w[0].as_slice()) {
            Some(v) => v,
            None => 0,
        }
    } else {
        0
    }
}

/// The total bytes `(sent, received)` that the output of `ip -s link` reports.
pub fn ip_link_totals(text: &str) -> (r: Result<(u64, u64), Fault>)
    ensures
        r == ip_link_spec(text@),
{
    let cs = chars_of(text);
    let ls = split_lines(cs.as_slice());
    let ghost lv = views(ls@);
    let rx_label = vec!['R', 'X', ':', ' '];
    let tx_label = vec!['T', 'X', ':', ' '];
    let n = ls.len();
    let mut rx: u64 = 0;
    let mut tx: u64 = 0;
    let mut i: usize = 0;
    assert(lv.skip(0) =~= lv);
    while i < n
        invariant
            i <= n,
            n == ls@.len(),
            lv == views(ls@),
            lv == lines(text@),
            rx_label@ == seq!['R', 'X', ':', ' '],
            tx_label@ == seq!['T', 'X', ':', ' '],
            ip_link_sum(lv).0 == rx + ip_link_sum(lv.skip(i as int)).0,
            ip_link_sum(lv).1 == tx + ip_link_sum(lv.skip(i as int)).1,
        decreases n - i,
    {
        let ghost rest = lv.skip(i as int);
        assert(rest[0] == ls@[i as int]@);
        assert(rest.drop_first() =~= lv.skip(i + 1));
        if contains_in(ls[i].as_slice(), rx_label.as_slice()) {
            if i + 1 < n {
                assert(rest[1] == ls@[i + 1]@);
                assert(rest.skip(2) =~= lv.skip(i + 2));
                proof {
                    lemma_ip_link_sum_nonneg(lv.skip(i + 2));
                }
                let v = first_number_of(ls[i + 1].as_slice());
                if v > u64::MAX - rx {
                    return Err(Fault);
                }
                rx = rx + v;
                i = i + 2;
            } else {
                i = i + 1;
                assert(lv.skip(i as int) =~= Seq::<Seq<char>>::empty());
            }
        } else if contains_in(ls[i].as_slice(), tx_label.as_slice()) {
            if i + 1 < n {
                assert(rest[1] == ls@[i + 1]@);
                assert(rest.skip(2) =~= lv.skip(i + 2));
                proof {
                    lemma_ip_link_sum_nonneg(lv.skip(i + 2));
                }
                let v = first_number_of(ls[i + 1].as_slice());
                if v > u64::MAX - tx {
                    return Err(Fault);
                }
                tx = tx + v;
                i = i + 2;
            } else {
                i = i + 1;
                assert(lv.skip(i as int) =~= Seq::<Seq<char>>::empty());
            }
        } else {
            i = i + 1;
        }
    }
    assert(lv.skip(i as int) =~= Seq::<Seq<char>>::empty());
    Ok((tx, rx))
}

/// `s` without its leading colons (`trim_start_matches(':')`).
pub open spec fn strip_colons(s: Seq<char>) -> Seq<char>
    decreases s.len(),
{
    if s.len() > 0 && s[0] == ':' {
        strip_colons(s.drop_first())
    } else {
        s
    }
}

/// The number after `label` in a line of `ifconfig`: the text after its first
/// occurrence (up to the next one), without leading colons and whitespace, up to
/// the first space; 0 where that is not a number.
pub open spec fn labelled_number(line: Seq<char>, label: Seq<char>) -> int {
    let num = trim_start(strip_colons(second_part(line, label)));
    let end = match find(num, seq![' ']) {
        Some(k) => k as int,
        None => num.len() as int,
    };
    u64_or_zero(num.take(end)) as int
}

/// The `(received, sent)` bytes that a lower-cased line of `ifconfig` reports:
/// the numbers after `rx bytes` and `tx bytes`, 0 where a label is missing.
pub open spec fn ifconfig_lower_line(lower: Seq<char>) -> (int, int) {
    let rx_label = seq!['r', 'x', ' ', 'b', 'y', 't', 'e', 's'];
    let tx_label = seq!['t', 'x', ' ', 'b', 'y', 't', 'e', 's'];
    (
        if contains(lower, rx_label) {
            labelled_number(lower, rx_label)
        } else {
            0
        },
        if contains(lower, tx_label) {
            labelled_number(lower, tx_label)
        } else {
            0
        },
    )
}

/// The `(received, sent)` bytes one line of `ifconfig` reports, read from the
/// line lower-cased.
pub open spec fn ifconfig_line(line: Seq<char>) -> (int, int) {
    ifconfig_lower_line(lowercase(line))
}

/// The `(received, sent)` bytes of the lines of `ifconfig` together.
pub open spec fn ifconfig_sum(ls: Seq<Seq<char>>) -> (int, int)
    decreases ls.len(),
{
    if ls.len() == 0 {
        (0, 0)
    } else {
        let a = ifconfig_line(ls[0]);
        let b = ifconfig_sum(ls.drop_first());
        (a.0 + b.0, a.1 + b.1)
    }
}

/// The total bytes `(sent, received)` that the output of `ifconfig` reports.
pub open spec fn ifconfig_spec(text: Seq<char>) -> Result<(u64, u64), Fault> {
    let c = ifconfig_sum(lines(text));
    if c.0 <= u64::MAX && c.1 <= u64::MAX {
        Ok((c.1 as u64, c.0 as u64))
    } else {
        Err(Fault)
    }
}

proof fn lemma_ifconfig_sum_nonneg(ls: Seq<Seq<char>>)
    ensures
        ifconfig_sum(ls).0 >= 0,
        ifconfig_sum(ls).1 >= 0,
    decreases ls.len(),
{
    if ls.len() > 0 {
        lemma_ifconfig_sum_nonneg(ls.drop_first());
    }
}

proof fn lemma_ifconfig_sum_concat(l1: Seq<Seq<char>>, l2: Seq<Seq<char>>)
    ensures
        ifconfig_sum(l1 + l2).0 == ifconfig_sum(l1).0 + ifconfig_sum(l2).0,
        ifconfig_sum(l1 + l2).1 == ifconfig_sum(l1).1 + ifconfig_sum(l2).1,
    decreases l1.len(),
{
    if l1.len() == 0 {
        assert(l1 + l2 =~= l2);
    } else {
        assert((l1 + l2).drop_first() =~= l1.drop_first() + l2);
        assert((l1 + l2)[0] == l1[0]);
        lemma_ifconfig_sum_concat(l1.drop_first(), l2);
    }
}

/// The `ifconfig` totals add up over lines: for output cut after a line's
/// end, the totals of the whole are those of the first part plus those of the
/// rest, and they fail exactly where that sum overflows.
pub proof fn lemma_ifconfig_totals_add(a: Seq<char>, b: Seq<char>)
    requires
        a.len() == 0 || a.last() == '\n',
        ifconfig_spec(a) is Ok,
        ifconfig_spec(b) is Ok,
    ensures
        ({
            let (sa, ra) = ifconfig_spec(a).unwrap();
            let (sb, rb) = ifconfig_spec(b).unwrap();
            if sa + sb <= u64::MAX && ra + rb <= u64::MAX {
                ifconfig_spec(a + b) == Ok::<(u64, u64), Fault>(((sa + sb) as u64, (ra + rb) as u64))
            } else {
                ifconfig_spec(a + b) is Err
            }
        }),
{
    lemma_lines_concat(a, b);
    lemma_ifconfig_sum_concat(lines(a), lines(b));
    lemma_ifconfig_sum_nonneg(lines(a));
    lemma_ifconfig_sum_nonneg(lines(b));
}

/// The characters of `s` without its leading colons.
fn strip_colons_of(s: &[char]) -> (r: Vec<char>)
    ensures
        r@ == strip_colons(s@),
{
    let mut i: usize = 0;
    assert(s@.skip(0) =~= s@);
    while i < s.len() && s[i] == ':'
        invariant
            i <= s@.len(),
            strip_colons(s@) == strip_colons(s@.skip(i as int)),
        decreases s@.len() - i,
    {
        assert(s@.skip(i as int).drop_first() =~= s@.skip(i + 1));
        i = i + 1;
    }
    let r = slice_of(s, i, s.len());
    assert(r@ =~= s@.skip(i as int));
    r
}

/// The number after `label` in a line.
fn labelled_number_of(line: &[char], label: &[char]) -> (v: u64)
    ensures
        v == labelled_number(line@, label@),
{
    let part = second_part_of(line, label);
    let stripped = strip_colons_of(part.as_slice());
    let num = trimmed_start(stripped.as_slice());
    let space = vec![' '];
    assert(space@ =~= seq![' ']);
    proof {
        crate::text::lemma_find_bound(num@, space@);
    }
    let end = match find_in(num.as_slice(), space.as_slice()) {
        Some(k) => k,
        None => num.len(),
    };
    let digits = slice_of(num.as_slice(), 0, end);
    assert(digits@ =~= num@.take(end as int));
    match parse_u64(digits.as_slice()) {
        Some(v) => v,
        None => 0,
    }
}

/// The `(received, sent)` bytes that a lower-cased line of `ifconfig` reports.
pub fn ifconfig_counts(lower: &[char]) -> (r: (u64, u64))
    ensures
        (r.0 as int, r.1 as int) == ifconfig_lower_line(lower@),
{
    let rx_label = vec!['r', 'x', ' ', 'b', 'y', 't', 'e', 's'];
    let tx_label = vec!['t', 'x', ' ', 'b', 'y', 't', 'e', 's'];
    assert(rx_label@ =~= seq!['r', 'x', ' ', 'b', 'y', 't', 'e', 's']);
    assert(tx_label@ =~= seq!['t', 'x', ' ', 'b', 'y', 't', 'e', 's']);
    let a = if contains_in(lower, rx_label.as_slice()) {
        labelled_number_of(lower, rx_label.as_slice())
    } else {
        0
    };
    let b = if contains_in(lower, tx_label.as_slice()) {
        labelled_number_of(lower, tx_label.as_slice())
    } else {
        0
    };
    (a, b)
}

/// The total bytes `(sent, received)` that the output of `ifconfig` reports.
pub fn ifconfig_totals(text: &str) -> (r: Result<(u64, u64), Fault>)
    ensures
        r == ifconfig_spec(text@),
{
    let cs = chars_of(text);
    let ls = split_lines(cs.as_slice());
    let ghost lv = views(ls@);
    let n = ls.len();
    let mut rx: u64 = 0;
    let mut tx: u64 = 0;
    let mut i: usize = 0;
    assert(lv.skip(0) =~= lv);
    while i < n
        invariant
            i <= n,
            n == ls@.len(),
            lv == views(ls@),
            lv == lines(text@),
            ifconfig_sum(lv).0 == rx + ifconfig_sum(lv.skip(i as int)).0,
            ifconfig_sum(lv).1 == tx + ifconfig_sum(lv.skip(i as int)).1,
        decreases n - i,
    {
        let ghost rest = lv.skip(i as int);
        assert(rest[0] == ls@[i as int]@);
        assert(rest.drop_first() =~= lv.skip(i + 1));
        proof {
            lemma_ifconfig_sum_nonneg(lv.skip(i + 1));
        }
        let line = string_of(ls[i].as_slice());
        let lower_s = to_lowercase(line.as_str());
        let lower = chars_of(lower_s.as_str());
        let (a, b) = ifconfig_counts(lower.as_slice());
        if a > u64::MAX - rx {
            return Err(Fault);
        }
        rx = rx + a;
        if b > u64::MAX - tx {
            return Err(Fault);
        }
        tx = tx + b;
        i = i + 1;
    }
    assert(lv.skip(i as int) =~= Seq::<Seq<char>>::empty());
    Ok((tx, rx))
}

/// Counters `(sent, received)` that show traffic, as opposed to a source that
/// reported none.
pub fn traffic_seen(totals: (u64, u64)) -> (r: Option<(u64, u64)>)
    ensures
        r == (if totals.0 > 0 || totals.1 > 0 {
            Some(totals)
        } else {
            None
        }),
{
    if totals.0 > 0 || totals.1 > 0 {
        Some(totals)
    } else {
        None
    }
}


/// The Wi-Fi address in the output of `termux-wifi-connectioninfo`: the text
/// between `"ip": "` and the next `"`.
pub open spec fn wifi_ip_spec(text: Seq<char>) -> Option<Seq<char>> {
    let key = seq!['"', 'i', 'p', '"', ':', ' ', '"'];
    match find(text, key) {
        None => None,
        Some(k) => {
            let rest = text.skip((k + key.len()) as int);
            match find(rest, seq!['"']) {
                Some(e) => Some(rest.take(e as int)),
                None => None,
            }
        },
    }
}

/// The Wi-Fi address in the output of `termux-wifi-connectioninfo`.
pub fn wifi_ip(text: &str) -> (r: Option<String>)
    ensures
        match wifi_ip_spec(text@) {
            Some(ip) => r matches Some(s) && s@ == ip,
            None => r is None,
        },
{
    let cs = chars_of(text);
    let key = vec!['"', 'i', 'p', '"', ':', ' ', '"'];
    let quote = vec!['"'];
    assert(quote@ =~= seq!['"']);
    proof {
        lemma_find_bound(cs@, key@);
    }
    let n = cs.len();
    match find_in(cs.as_slice(), key.as_slice()) {
        None => None,
        Some(k) => {
            let rest = slice_of(cs.as_slice(), k + key.len(), n);
            assert(rest@ =~= cs@.skip(k + key@.len()));
            proof {
                lemma_find_bound(rest@, quote@);
            }
            match find_in(rest.as_slice(), quote.as_slice()) {
                Some(e) => {
                    let ip = slice_of(rest.as_slice(), 0, e);
                    assert(ip@ =~= rest@.take(e as int));
                    Some(string_of(ip.as_slice()))
                },
                None => None,
            }
        },
    }
}

/// A frequency file in kHz, as MHz: 0 where it does not hold a number.
pub open spec fn khz_text_mhz(text: Seq<char>) -> u64 {
    match parse_u64_spec(trim(text)) {
        Some(k) => (k / 1000) as u64,
        None => 0,
    }
}

/// The frequency of a CPU in MHz from its `scaling_cur_freq` file where that
/// could be read, else from its `cpuinfo_max_freq` file; 0 where neither could.
pub open spec fn cpu_freq_spec(cur: Option<Seq<char>>, max: Option<Seq<char>>) -> u64 {
    match cur {
        Some(t) => khz_text_mhz(t),
        None => match max {
            Some(t) => khz_text_mhz(t),
            None => 0,
        },
    }
}

/// A frequency file in kHz, as MHz.
fn khz_to_mhz(text: &str) -> (r: u64)
    ensures
        r == khz_text_mhz(text@),
{
    let cs = chars_of(text);
    let t = trimmed(cs.as_slice());
    match parse_u64(t.as_slice()) {
        Some(k) => k / 1000,
        None => 0,
    }
}

/// The frequency of a CPU in MHz from the text of its `scaling_cur_freq` file
/// (`None` where it could not be read), else from that of `cpuinfo_max_freq`.
pub fn cpu_freq_mhz(cur: Option<&str>, max: Option<&str>) -> (r: u64)
    ensures
        r == cpu_freq_spec(
            match cur {
                Some(t) => Some(t@),
                None => None,
            },
            match max {
                Some(t) => Some(t@),
                None => None,
            },
        ),
{
    match cur {
        Some(t) => khz_to_mhz(t),
        None => match max {
            Some(t) => khz_to_mhz(t),
            None => 0,
        },
    }
}

/// The index just past the first occurrence of `p` in `s`.
pub open spec fn after_find(s: Seq<char>, p: Seq<char>) -> Option<int> {
    match find(s, p) {
        Some(k) => Some((k + p.len()) as int),
        None => None,
    }
}

/// The index of the first occurrence of `p` in `s`, or the length of `s`.
pub open spec fn find_or_len(s: Seq<char>, p: Seq<char>) -> int {
    match find(s, p) {
        Some(k) => k as int,
        None => s.len() as int,
    }
}

/// Where the uptime begins in the output of `uptime` (commas made spaces): after
/// `up time:`, else after `up `.
pub open spec fn uptime_start(c: Seq<char>) -> Option<int> {
    match after_find(c, seq!['u', 'p', ' ', 't', 'i', 'm', 'e', ':']) {
        Some(i) => Some(i),
        None => after_find(c, seq!['u', 'p', ' ']),
    }
}

/// Where the uptime ends: at the first of ` user`, ` idle` and ` load`.
pub open spec fn uptime_end(c: Seq<char>) -> int {
    vstd::math::min(
        vstd::math::min(
            find_or_len(c, seq![' ', 'u', 's', 'e', 'r']),
            find_or_len(c, seq![' ', 'i', 'd', 'l', 'e']),
        ),
        find_or_len(c, seq![' ', 'l', 'o', 'a', 'd']),
    )
}

/// The uptime text split into words.
pub open spec fn uptime_tokens(c: Seq<char>, start: int) -> Seq<Seq<char>> {
    words(trim(c.subrange(start, uptime_end(c))))
}

/// The number in the token before token `i`, 0 where there is none.
pub open spec fn number_before(tokens: Seq<Seq<char>>, i: int) -> u64 {
    u64_or_zero(tokens[i - 1])
}

/// A token names a unit (`day`, `hour`, ...) or is its one-letter form.
pub open spec fn names_unit(t: Seq<char>, word: Seq<char>, letter: char) -> bool {
    contains(t, word) || t == seq![letter]
}

/// Days, hours, minutes and seconds after reading token `i`, whose lower-cased
/// form is `lows[i]`: a unit word takes the number before it; a clock `h:m[:s]`
/// sets hours and minutes (and seconds).
pub open spec fn uptime_token_step(
    st: (u64, u64, u64, u64),
    tokens: Seq<Seq<char>>,
    lows: Seq<Seq<char>>,
    i: int,
) -> (u64, u64, u64, u64) {
    let t = lows[i];
    if names_unit(t, seq!['d', 'a', 'y'], 'd') {
        if i > 0 {
            (number_before(tokens, i), st.1, st.2, st.3)
        } else {
            st
        }
    } else if names_unit(t, seq!['h', 'o', 'u', 'r'], 'h') || contains(t, seq!['h', 'r']) {
        if i > 0 {
            (st.0, number_before(tokens, i), st.2, st.3)
        } else {
            st
        }
    } else if names_unit(t, seq!['m', 'i', 'n'], 'm') {
        if i > 0 {
            (st.0, st.1, number_before(tokens, i), st.3)
        } else {
            st
        }
    } else if names_unit(t, seq!['s', 'e', 'c'], 's') {
        if i > 0 {
            (st.0, st.1, st.2, number_before(tokens, i))
        } else {
            st
        }
    } else if contains(t, seq![':']) {
        let parts = split_at_char(t, ':');
        if parts.len() >= 3 {
            (st.0, u64_or_zero(parts[0]), u64_or_zero(parts[1]), u64_or_zero(parts[2]))
        } else if parts.len() == 2 {
            (st.0, u64_or_zero(parts[0]), u64_or_zero(parts[1]), st.3)
        } else {
            st
        }
    } else {
        st
    }
}

/// Days, hours, minutes and seconds after reading the first `n` tokens.
pub open spec fn uptime_fields(tokens: Seq<Seq<char>>, lows: Seq<Seq<char>>, n: nat) -> (
    u64,
    u64,
    u64,
    u64,
)
    decreases n,
{
    if n == 0 {
        (0, 0, 0, 0)
    } else {
        uptime_token_step(uptime_fields(tokens, lows, (n - 1) as nat), tokens, lows, n - 1)
    }
}

/// The uptime in seconds that the tokens state, given each token lower-cased:
/// `None` where it is zero, a fault where it overflows.
pub open spec fn uptime_total(tokens: Seq<Seq<char>>, lows: Seq<Seq<char>>) -> Result<
    Option<u64>,
    Fault,
> {
    let f = uptime_fields(tokens, lows, tokens.len());
    let total = f.0 * 86400 + f.1 * 3600 + f.2 * 60 + f.3;
    if total > u64::MAX {
        Err(Fault)
    } else if total > 0 {
        Ok(Some(total as u64))
    } else {
        Ok(None)
    }
}

/// A lower-cased token that names no unit and is no clock.
pub open spec fn unit_free(t: Seq<char>) -> bool {
    &&& !names_unit(t, seq!['d', 'a', 'y'], 'd')
    &&& !names_unit(t, seq!['h', 'o', 'u', 'r'], 'h')
    &&& !contains(t, seq!['h', 'r'])
    &&& !names_unit(t, seq!['m', 'i', 'n'], 'm')
    &&& !names_unit(t, seq!['s', 'e', 'c'], 's')
    &&& !contains(t, seq![':'])
}

/// The result for an uptime of `x` seconds: `None` for zero, a fault past
/// `u64::MAX`.
pub open spec fn seconds_result(x: int) -> Result<Option<u64>, Fault> {
    if x > u64::MAX {
        Err(Fault)
    } else if x > 0 {
        Ok(Some(x as u64))
    } else {
        Ok(None)
    }
}

/// A unit word counts the number before it in its unit: `N min` is `N`
/// minutes, `N day` `N` days, `N hour` `N` hours and `N sec` `N` seconds.
pub proof fn lemma_uptime_unit_words(n: Seq<char>, ln: Seq<char>)
    requires
        unit_free(ln),
    ensures
        uptime_total(seq![n, seq!['m', 'i', 'n']], seq![ln, seq!['m', 'i', 'n']])
            == seconds_result(u64_or_zero(n) * 60),
        uptime_total(seq![n, seq!['h', 'o', 'u', 'r']], seq![ln, seq!['h', 'o', 'u', 'r']])
            == seconds_result(u64_or_zero(n) * 3600),
        uptime_total(seq![n, seq!['d', 'a', 'y']], seq![ln, seq!['d', 'a', 'y']])
            == seconds_result(u64_or_zero(n) * 86400),
        uptime_total(seq![n, seq!['s', 'e', 'c']], seq![ln, seq!['s', 'e', 'c']])
            == seconds_result(u64_or_zero(n) as int),
{
    reveal_with_fuel(find_from, 3);
    let min = seq!['m', 'i', 'n'];
    let hour = seq!['h', 'o', 'u', 'r'];
    let day = seq!['d', 'a', 'y'];
    let sec = seq!['s', 'e', 'c'];
    assert(matches_at(min, min, 0) && matches_at(hour, hour, 0) && matches_at(day, day, 0)
        && matches_at(sec, sec, 0)) by {
        assert(min.subrange(0, 3) =~= min);
        assert(hour.subrange(0, 4) =~= hour);
        assert(day.subrange(0, 3) =~= day);
        assert(sec.subrange(0, 3) =~= sec);
    }
    assert(!matches_at(min, day, 0) && !matches_at(min, hour, 0)) by {
        assert(min.subrange(0, 3)[0] != day[0]);
    }
    assert(!contains(min, day));
    assert(min != seq!['d']);
    assert(!contains(min, hour));
    assert(min != seq!['h']);
    assert(!matches_at(min, seq!['h', 'r'], 0) && !matches_at(min, seq!['h', 'r'], 1)) by {
        assert(min.subrange(0, 2)[0] != 'h');
        assert(min.subrange(1, 3)[0] != 'h');
    }
    assert(!contains(min, seq!['h', 'r']));
    assert(!matches_at(hour, day, 0) && !matches_at(hour, day, 1)) by {
        assert(hour.subrange(0, 3)[0] != 'd');
        assert(hour.subrange(1, 4)[0] != 'd');
    }
    assert(!contains(hour, day));
    assert(hour != seq!['d']);
    assert(!matches_at(sec, day, 0) && !matches_at(sec, hour, 0) && !matches_at(sec, min, 0))
        by {
        assert(sec.subrange(0, 3)[0] != 'd');
        assert(sec.subrange(0, 3)[0] != 'm');
    }
    assert(!matches_at(sec, seq!['h', 'r'], 0) && !matches_at(sec, seq!['h', 'r'], 1)) by {
        assert(sec.subrange(0, 2)[0] != 'h');
        assert(sec.subrange(1, 3)[0] != 'h');
    }
    assert(!contains(sec, day) && !contains(sec, hour) && !contains(sec, min));
    assert(!contains(sec, seq!['h', 'r']));
    assert(sec != seq!['d'] && sec != seq!['h'] && sec != seq!['m']);
    assert(contains(min, min) && contains(hour, hour) && contains(day, day) && contains(sec, sec));
    lemma_two_token_fields(n, ln, min);
    lemma_two_token_fields(n, ln, hour);
    lemma_two_token_fields(n, ln, day);
    lemma_two_token_fields(n, ln, sec);
}

proof fn lemma_two_token_fields(n: Seq<char>, ln: Seq<char>, w: Seq<char>)
    ensures
        uptime_fields(seq![n, w], seq![ln, w], 2) == uptime_token_step(
            uptime_token_step((0, 0, 0, 0), seq![n, w], seq![ln, w], 0),
            seq![n, w],
            seq![ln, w],
            1,
        ),
        seq![n, w].len() == 2,
        seq![ln, w][0] == ln,
        seq![ln, w][1] == w,
        seq![n, w][0] == n,
{
    assert(uptime_fields(seq![n, w], seq![ln, w], 0) == (0u64, 0u64, 0u64, 0u64));
    assert(uptime_fields(seq![n, w], seq![ln, w], 1) == uptime_token_step(
        (0, 0, 0, 0),
        seq![n, w],
        seq![ln, w],
        0,
    ));
}

/// Each token lower-cased.
pub open spec fn lowered(tokens: Seq<Seq<char>>) -> Seq<Seq<char>> {
    tokens.map_values(|t: Seq<char>| lowercase(t))
}

/// The uptime in seconds that the output of `uptime` states: `None` where it has
/// no `up` or states zero; a fault where the end marker comes before the start or
/// the total overflows.
pub open spec fn uptime_spec(text: Seq<char>) -> Result<Option<u64>, Fault> {
    let c = commas_to_spaces(text);
    match uptime_start(c) {
        None => Ok(None),
        Some(start) => if uptime_end(c) < start {
            Err(Fault)
        } else {
            let tokens = uptime_tokens(c, start);
            uptime_total(tokens, lowered(tokens))
        },
    }
}

/// Where `p` lies wholly inside the beginning `c.take(m)`, searching that
/// beginning finds the same place; where `p` first occurs past `m` in `c`, or
/// not at all, the beginning holds none of it.
proof fn lemma_find_or_len_take(c: Seq<char>, p: Seq<char>, m: int, k: int)
    requires
        0 <= k,
        k + 5 <= m <= c.len(),
        p.len() == 5,
    ensures
        find_or_len(c, p) <= k ==> find_or_len(c.take(m), p) == find_or_len(c, p),
        find_or_len(c, p) > k ==> find_or_len(c.take(m), p) > k,
{
    lemma_find_take(c, p, m);
    lemma_find_bound(c, p);
}

/// The uptime part ends at the first ` load` (when no ` user` or ` idle`
/// comes earlier): nothing from ` load` on changes the result. For output
/// whose uptime begins, after `up time:` or else `up `, before its first
/// ` load`, reading it cut just after that ` load` gives the same result.
pub proof fn lemma_uptime_ends_at_load(text: Seq<char>, k: nat)
    requires
        find(commas_to_spaces(text), seq![' ', 'l', 'o', 'a', 'd']) == Some(k),
        contains(
            commas_to_spaces(text).take(k as int),
            seq!['u', 'p', ' ', 't', 'i', 'm', 'e', ':'],
        ) || (!contains(commas_to_spaces(text), seq!['u', 'p', ' ', 't', 'i', 'm', 'e', ':'])
            && contains(commas_to_spaces(text).take(k as int), seq!['u', 'p', ' '])),
    ensures
        uptime_spec(text) == uptime_spec(text.take(k + 5 as int)),
{
    let c = commas_to_spaces(text);
    let load = seq![' ', 'l', 'o', 'a', 'd'];
    let upt = seq!['u', 'p', ' ', 't', 'i', 'm', 'e', ':'];
    let up = seq!['u', 'p', ' '];
    lemma_find_bound(c, load);
    let m: int = k + 5 as int;
    let c2 = commas_to_spaces(text.take(m));
    assert(c2 =~= c.take(m));
    lemma_find_take(c, upt, m);
    lemma_find_take(c, upt, k as int);
    lemma_find_take(c, up, m);
    lemma_find_take(c, up, k as int);
    assert(uptime_start(c2) == uptime_start(c));
    let st = uptime_start(c).unwrap();
    assert(st <= k);
    lemma_find_take(c, load, m);
    assert(find_or_len(c2, load) == k);
    lemma_find_or_len_take(c, seq![' ', 'u', 's', 'e', 'r'], m, k as int);
    lemma_find_or_len_take(c, seq![' ', 'i', 'd', 'l', 'e'], m, k as int);
    assert(uptime_end(c2) == uptime_end(c));
    let e = uptime_end(c);
    assert(e <= k);
    if st <= e {
        assert(c2.subrange(st, e) =~= c.subrange(st, e));
        assert(uptime_tokens(c2, st) == uptime_tokens(c, st));
    }
}

/// The index just past the first occurrence of `p` in `s`.
fn after_find_in(s: &[char], p: &[char]) -> (r: Option<usize>)
    ensures
        match after_find(s@, p@) {
            Some(i) => r matches Some(j) && j == i && i <= s@.len(),
            None => r is None,
        },
{
    proof {
        lemma_find_bound(s@, p@);
    }
    let n = s.len();
    match find_in(s, p) {
        Some(k) => Some(k + p.len()),
        None => None,
    }
}

/// The index of the first occurrence of `p` in `s`, or the length of `s`.
fn find_or_len_in(s: &[char], p: &[char]) -> (r: usize)
    ensures
        r == find_or_len(s@, p@),
        r <= s@.len(),
{
    proof {
        lemma_find_bound(s@, p@);
    }
    let n = s.len();
    match find_in(s, p) {
        Some(k) => k,
        None => n,
    }
}

/// The number a piece holds, 0 where it holds none.
fn u64_or_zero_of(s: &[char]) -> (v: u64)
    ensures
        v == u64_or_zero(s@),
{
    match parse_u64(s) {
        Some(v) => v,
        None => 0,
    }
}

/// Reads token `i` of the uptime.
fn uptime_step(
    st: (u64, u64, u64, u64),
    tokens: &Vec<Vec<char>>,
    lows: &Vec<Vec<char>>,
    i: usize,
) -> (r: (u64, u64, u64, u64))
    requires
        i < tokens@.len(),
        lows@.len() == tokens@.len(),
    ensures
        r == uptime_token_step(st, views(tokens@), views(lows@), i as int),
{
    let ghost tv = views(tokens@);
    assert(tv[i as int] == tokens@[i as int]@);
    assert(i > 0 ==> tv[i - 1] == tokens@[i - 1]@);
    assert(views(lows@)[i as int] == lows@[i as int]@);
    let t = &lows[i];
    let day = vec!['d', 'a', 'y'];
    let hour = vec!['h', 'o', 'u', 'r'];
    let hr = vec!['h', 'r'];
    let min = vec!['m', 'i', 'n'];
    let sec = vec!['s', 'e', 'c'];
    let colon = vec![':'];
    assert(colon@ =~= seq![':']);
    let d1 = vec!['d'];
    let h1 = vec!['h'];
    let m1 = vec!['m'];
    let s1 = vec!['s'];
    assert(d1@ =~= seq!['d'] && h1@ =~= seq!['h'] && m1@ =~= seq!['m'] && s1@ =~= seq!['s']);
    if contains_in(t.as_slice(), day.as_slice()) || same_chars(t.as_slice(), d1.as_slice()) {
        if i > 0 {
            (u64_or_zero_of(tokens[i - 1].as_slice()), st.1, st.2, st.3)
        } else {
            st
        }
    } else if contains_in(t.as_slice(), hour.as_slice()) || same_chars(t.as_slice(), h1.as_slice()) || contains_in(
        t.as_slice(),
        hr.as_slice(),
    ) {
        if i > 0 {
            (st.0, u64_or_zero_of(tokens[i - 1].as_slice()), st.2, st.3)
        } else {
            st
        }
    } else if contains_in(t.as_slice(), min.as_slice()) || same_chars(t.as_slice(), m1.as_slice()) {
        if i > 0 {
            (st.0, st.1, u64_or_zero_of(tokens[i - 1].as_slice()), st.3)
        } else {
            st
        }
    } else if contains_in(t.as_slice(), sec.as_slice()) || same_chars(t.as_slice(), s1.as_slice()) {
        if i > 0 {
            (st.0, st.1, st.2, u64_or_zero_of(tokens[i - 1].as_slice()))
        } else {
            st
        }
    } else if contains_in(t.as_slice(), colon.as_slice()) {
        let parts = split_char(t.as_slice(), ':');
        let ghost pv = views(parts@);
        assert(pv.len() == parts@.len());
        if parts.len() >= 3 {
            assert(pv[0] == parts@[0]@ && pv[1] == parts@[1]@ && pv[2] == parts@[2]@);
            (
                st.0,
                u64_or_zero_of(parts[0].as_slice()),
                u64_or_zero_of(parts[1].as_slice()),
                u64_or_zero_of(parts[2].as_slice()),
            )
        } else if parts.len() == 2 {
            assert(pv[0] == parts@[0]@ && pv[1] == parts@[1]@);
            (st.0, u64_or_zero_of(parts[0].as_slice()), u64_or_zero_of(parts[1].as_slice()), st.3)
        } else {
            st
        }
    } else {
        st
    }
}

/// The uptime in seconds that the output of `uptime` states, as days, hours,
/// minutes and seconds or as a clock: `Ok(None)` where it names none.
pub fn parse_uptime(text: &str) -> (r: Result<Option<u64>, Fault>)
    ensures
        r == uptime_spec(text@),
{
    let raw = chars_of(text);
    let c = replace_commas(raw.as_slice());
    let up_time = vec!['u', 'p', ' ', 't', 'i', 'm', 'e', ':'];
    let up = vec!['u', 'p', ' '];
    let start = match after_find_in(c.as_slice(), up_time.as_slice()) {
        Some(i) => i,
        None => match after_find_in(c.as_slice(), up.as_slice()) {
            Some(i) => i,
            None => {
                return Ok(None);
            },
        },
    };
    let user = vec![' ', 'u', 's', 'e', 'r'];
    let idle = vec![' ', 'i', 'd', 'l', 'e'];
    let load = vec![' ', 'l', 'o', 'a', 'd'];
    let e1 = find_or_len_in(c.as_slice(), user.as_slice());
    let e2 = find_or_len_in(c.as_slice(), idle.as_slice());
    let e3 = find_or_len_in(c.as_slice(), load.as_slice());
    let end = if e1 < e2 { e1 } else { e2 };
    let end = if end < e3 { end } else { e3 };
    if end < start {
        return Err(Fault);
    }
    let span = slice_of(c.as_slice(), start, end);
    let up_str = trimmed(span.as_slice());
    let tokens = split_words(up_str.as_slice());
    let ghost tv = views(tokens@);
    let mut lows: Vec<Vec<char>> = Vec::new();
    let mut i: usize = 0;
    while i < tokens.len()
        invariant
            i <= tokens@.len(),
            lows@.len() == i,
            forall|j: int| 0 <= j < i ==> #[trigger] lows@[j]@ == lowercase(tokens@[j]@),
        decreases tokens@.len() - i,
    {
        let word = string_of(tokens[i].as_slice());
        let lower = to_lowercase(word.as_str());
        lows.push(chars_of(lower.as_str()));
        i = i + 1;
    }
    assert(views(lows@) =~= lowered(tv));
    uptime_from_tokens(&tokens, &lows)
}

/// The uptime in seconds that the words of an `uptime` report state, given
/// each word also lower-cased (`lows`): `Ok(None)` where it names none.
pub fn uptime_from_tokens(tokens: &Vec<Vec<char>>, lows: &Vec<Vec<char>>) -> (r: Result<
    Option<u64>,
    Fault,
>)
    requires
        lows@.len() == tokens@.len(),
    ensures
        r == uptime_total(views(tokens@), views(lows@)),
{
    let mut st: (u64, u64, u64, u64) = (0, 0, 0, 0);
    let mut i: usize = 0;
    while i < tokens.len()
        invariant
            i <= tokens@.len(),
            lows@.len() == tokens@.len(),
            st == uptime_fields(views(tokens@), views(lows@), i as nat),
        decreases tokens@.len() - i,
    {
        st = uptime_step(st, tokens, lows, i);
        i = i + 1;
    }
    let (days, hours, mins, secs) = st;
    let total: u128 = days as u128 * 86400 + hours as u128 * 3600 + mins as u128 * 60 + secs as u128;
    if total > u64::MAX as u128 {
        return Err(Fault);
    }
    if total > 0 {
        Ok(Some(total as u64))
    } else {
        Ok(None)
    }
}

} // verus!
