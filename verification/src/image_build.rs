//! Image builds: the text of podman's output lines, image tags and the names
//! of saved tarballs and dumped logs.
use vstd::prelude::*;

use crate::names::view_names;
use crate::strings::{
    chars_of, decimal, is_ws, lemma_trim_props, push_char, string_from_chars, trim, trim_seq,
    usize_to_string, ws_prefix_len, ws_suffix_len,
};

verus! {

/// Progress of a build, as reported back to the inventory.
pub enum BuildEvent {
    LogLine { image_name: String, line: String, seq: u64 },
    BuildComplete { image_name: String, result: Result<(), String>, tarball_written: bool },
}

impl BuildEvent {
    /// Position in the merged log: a line's sequence number; completion last.
    pub open spec fn order_key(&self) -> u64 {
        match self {
            BuildEvent::LogLine { seq, .. } => *seq,
            BuildEvent::BuildComplete { .. } => u64::MAX,
        }
    }
}

/// Event `a` (with key `ka`) is applied before event `b` (key `kb`): lower
/// key first, equal keys in arrival order.
pub open spec fn applied_before(ka: u64, a: int, kb: u64, b: int) -> bool {
    ka < kb || (ka == kb && a < b)
}

/// `x` occurs in `order`.
pub open spec fn lists(order: Seq<usize>, x: int) -> bool {
    exists|j: int| 0 <= j < order.len() && #[trigger] order[j] == x
}

/// `order` lists every position of `events` once, in application order.
pub open spec fn is_event_order(events: Seq<BuildEvent>, order: Seq<usize>) -> bool {
    &&& order.len() == events.len()
    &&& forall|i: int| 0 <= i < order.len() ==> #[trigger] order[i] < events.len()
    &&& forall|x: int| 0 <= x < events.len() ==> #[trigger] lists(order, x)
    &&& forall|a: int, b: int|
        0 <= a < b < order.len() ==> applied_before(
            events[order[a] as int].order_key(),
            order[a] as int,
            events[order[b] as int].order_key(),
            order[b] as int,
        )
}

/// In an application order, a build's completion comes after every log
/// line whose sequence number is below the largest one.
pub proof fn lemma_completion_applied_last(events: Seq<BuildEvent>, order: Seq<usize>, a: int, b: int)
    requires
        is_event_order(events, order),
        0 <= a < order.len(),
        0 <= b < order.len(),
        events[order[a] as int] is BuildComplete,
        events[order[b] as int] matches BuildEvent::LogLine { seq, .. } && seq < u64::MAX,
    ensures
        b < a,
{
    if a < b {
        assert(applied_before(
            events[order[a] as int].order_key(),
            order[a] as int,
            events[order[b] as int].order_key(),
            order[b] as int,
        ));
    }
    if a == b {
        assert(events[order[a] as int] == events[order[b] as int]);
    }
}

fn order_key_of(e: &BuildEvent) -> (k: u64)
    ensures
        k == e.order_key(),
{
    match e {
        BuildEvent::LogLine { seq, .. } => *seq,
        BuildEvent::BuildComplete { .. } => u64::MAX,
    }
}

/// The order in which a batch of build events is applied: by sequence
/// number, the completion last, ties kept in arrival order (see
/// `is_event_order`).
pub fn event_order(events: &[BuildEvent]) -> (order: Vec<usize>)
    ensures
        is_event_order(events@, order@),
{
    let ghost es = events@;
    let mut order: Vec<usize> = Vec::new();
    let mut i: usize = 0;
    while i < events.len()
        invariant
            i <= es.len(),
            es == events@,
            order@.len() == i,
            forall|q: int| 0 <= q < order@.len() ==> #[trigger] order@[q] < i,
            forall|x: int| 0 <= x < i ==> #[trigger] lists(order@, x),
            forall|a: int, b: int|
                0 <= a < b < order@.len() ==> applied_before(
                    es[order@[a] as int].order_key(),
                    order@[a] as int,
                    es[order@[b] as int].order_key(),
                    order@[b] as int,
                ),
        decreases events.len() - i,
    {
        let k = order_key_of(&events[i]);
        let mut p: usize = 0;
        while p < order.len() && order_key_of(&events[order[p]]) <= k
            invariant
                p <= order@.len(),
                order@.len() == i,
                es == events@,
                i < es.len(),
                k == es[i as int].order_key(),
                forall|q: int| 0 <= q < order@.len() ==> #[trigger] order@[q] < i,
                forall|q: int| 0 <= q < p ==> es[#[trigger] order@[q] as int].order_key() <= k,
            decreases order.len() - p,
        {
            p = p + 1;
        }
        let ghost before = order@;
        order.insert(p, i);
        proof {
            assert forall|q: int| 0 <= q < order@.len() implies #[trigger] order@[q] < i + 1 by {
                if q < p {
                    assert(order@[q] == before[q]);
                } else if q > p {
                    assert(order@[q] == before[q - 1]);
                }
            }
            assert forall|x: int| 0 <= x < i + 1 implies #[trigger] lists(order@, x) by {
                if x == i {
                    assert(order@[p as int] == x);
                } else {
                    assert(lists(before, x));
                    let j = choose|j: int| 0 <= j < before.len() && #[trigger] before[j] == x;
                    if j < p {
                        assert(order@[j] == x);
                    } else {
                        assert(order@[j + 1] == x);
                    }
                }
            }
            assert forall|a: int, b: int| 0 <= a < b < order@.len() implies applied_before(
                es[order@[a] as int].order_key(),
                order@[a] as int,
                es[order@[b] as int].order_key(),
                order@[b] as int,
            ) by {
                if p < before.len() {
                    assert(es[before[p as int] as int].order_key() > k);
                }
                if b < p {
                    assert(order@[a] == before[a] && order@[b] == before[b]);
                } else if b == p {
                    assert(order@[a] == before[a]);
                    assert(es[before[a] as int].order_key() <= k);
                } else if a > p {
                    assert(order@[a] == before[a - 1] && order@[b] == before[b - 1]);
                } else if a == p {
                    assert(order@[b] == before[b - 1]);
                    if b - 1 > p {
                        assert(applied_before(
                            es[before[p as int] as int].order_key(),
                            before[p as int] as int,
                            es[before[b - 1] as int].order_key(),
                            before[b - 1] as int,
                        ));
                    }
                } else {
                    assert(order@[a] == before[a] && order@[b] == before[b - 1]);
                }
            }
        }
        i = i + 1;
    }
    order
}

// ---------------------------------------------------------------------------
// ANSI escape sequences
// ---------------------------------------------------------------------------

pub open spec fn esc() -> char {
    '\x1b'
}

pub open spec fn bel() -> char {
    '\x07'
}

/// A CSI final byte: `0x40..=0x7e`.
pub open spec fn is_csi_final(c: char) -> bool {
    0x40 <= (c as u32) && (c as u32) <= 0x7e
}

/// What follows a CSI sequence's body: everything after its final byte.
pub open spec fn after_csi(t: Seq<char>) -> Seq<char>
    decreases t.len(),
{
    if t.len() == 0 {
        t
    } else if is_csi_final(t[0]) {
        t.drop_first()
    } else {
        after_csi(t.drop_first())
    }
}

/// What follows an OSC sequence's body: everything after its BEL, or after
/// the character that follows its ESC.
pub open spec fn after_osc(t: Seq<char>) -> Seq<char>
    decreases t.len(),
{
    if t.len() == 0 {
        t
    } else if t[0] == bel() {
        t.drop_first()
    } else if t[0] == esc() {
        if t.len() >= 2 {
            t.skip(2)
        } else {
            Seq::empty()
        }
    } else {
        after_osc(t.drop_first())
    }
}

pub proof fn lemma_after_csi_len(t: Seq<char>)
    ensures
        after_csi(t).len() <= t.len(),
    decreases t.len(),
{
    if t.len() > 0 && !is_csi_final(t[0]) {
        lemma_after_csi_len(t.drop_first());
    }
}

pub proof fn lemma_after_osc_len(t: Seq<char>)
    ensures
        after_osc(t).len() <= t.len(),
    decreases t.len(),
{
    if t.len() > 0 && t[0] != bel() && t[0] != esc() {
        lemma_after_osc_len(t.drop_first());
    }
}

/// The text with ANSI escape sequences removed: CSI (`ESC [` up to a final
/// byte), OSC (`ESC ]` up to BEL or `ESC` plus one character), other
/// two-character escapes, and a lone trailing ESC.
pub open spec fn strip_ansi(s: Seq<char>) -> Seq<char>
    decreases s.len(),
{
    if s.len() == 0 {
        s
    } else if s[0] != esc() {
        seq![s[0]] + strip_ansi(s.drop_first())
    } else if s.len() == 1 {
        Seq::empty()
    } else if s[1] == '[' {
        proof {
            lemma_after_csi_len(s.skip(2));
        }
        strip_ansi(after_csi(s.skip(2)))
    } else if s[1] == ']' {
        proof {
            lemma_after_osc_len(s.skip(2));
        }
        strip_ansi(after_osc(s.skip(2)))
    } else {
        strip_ansi(s.skip(2))
    }
}

/// Removes ANSI escape sequences (see `strip_ansi`).
pub fn strip_ansi_escapes(s: &str) -> (r: String)
    ensures
        r@ == strip_ansi(s@),
{
    let cs = chars_of(s);
    let n = cs.len();
    let mut out: Vec<char> = Vec::new();
    let mut i: usize = 0;
    assert(s@.skip(0) =~= s@);
    assert(out@ + s@ =~= s@);
    while i < n
        invariant
            i <= n,
            n == cs@.len(),
            cs@ == s@,
            strip_ansi(s@) == out@ + strip_ansi(s@.skip(i as int)),
        decreases n - i,
    {
        let ghost t = s@.skip(i as int);
        let ghost prev = out@;
        let c = cs[i];
        i = i + 1;
        assert(t[0] == c);
        if c != '\x1b' {
            out.push(c);
            proof {
                assert(t.drop_first() =~= s@.skip(i as int));
                assert(strip_ansi(t) == seq![c] + strip_ansi(t.drop_first()));
                assert(prev + (seq![c] + strip_ansi(t.drop_first())) =~= out@ + strip_ansi(
                    s@.skip(i as int),
                ));
            }
            continue ;
        }
        if i == n {
            assert(t.len() == 1);
            assert(strip_ansi(t) =~= Seq::<char>::empty());
            assert(s@.skip(i as int) =~= Seq::<char>::empty());
            assert(prev + Seq::<char>::empty() =~= prev);
            continue ;
        }
        let nc = cs[i];
        assert(t[1] == nc);
        assert(t.skip(2) =~= s@.skip(i + 1));
        if nc == '[' {
            i = i + 1;
            let ghost start = s@.skip(i as int);
            let ghost i_in = i;
            loop
                invariant_except_break
                    after_csi(start) == after_csi(s@.skip(i as int)),
                invariant
                    i_in <= i <= n,
                    n == cs@.len(),
                    cs@ == s@,
                ensures
                    after_csi(start) == s@.skip(i as int),
                decreases n - i,
            {
                if i >= n {
                    assert(s@.skip(i as int) =~= Seq::<char>::empty());
                    break ;
                }
                let d = cs[i];
                let ghost u = s@.skip(i as int);
                assert(u[0] == d);
                assert(u.drop_first() =~= s@.skip(i + 1));
                i = i + 1;
                if 0x40 <= (d as u32) && (d as u32) <= 0x7e {
                    break ;
                }
            }
            assert(strip_ansi(t) == strip_ansi(after_csi(t.skip(2))));
        } else if nc == ']' {
            i = i + 1;
            let ghost start = s@.skip(i as int);
            let ghost i_in = i;
            loop
                invariant_except_break
                    after_osc(start) == after_osc(s@.skip(i as int)),
                invariant
                    i_in <= i <= n,
                    n == cs@.len(),
                    cs@ == s@,
                ensures
                    after_osc(start) == s@.skip(i as int),
                decreases n - i,
            {
                if i >= n {
                    assert(s@.skip(i as int) =~= Seq::<char>::empty());
                    break ;
                }
                let d = cs[i];
                let ghost u = s@.skip(i as int);
                assert(u[0] == d);
                assert(u.drop_first() =~= s@.skip(i + 1));
                i = i + 1;
                if d == '\x07' {
                    break ;
                }
                if d == '\x1b' {
                    if i < n {
                        assert(u.skip(2) =~= s@.skip(i + 1));
                        i = i + 1;
                    } else {
                        assert(s@.skip(i as int) =~= Seq::<char>::empty());
                    }
                    break ;
                }
            }
            assert(strip_ansi(t) == strip_ansi(after_osc(t.skip(2))));
        } else {
            i = i + 1;
            assert(strip_ansi(t) == strip_ansi(t.skip(2)));
        }
    }
    assert(s@.skip(n as int) =~= Seq::<char>::empty());
    assert(out@ + Seq::<char>::empty() =~= out@);
    string_from_chars(&out)
}

// ---------------------------------------------------------------------------
// Cleaning one line of output
// ---------------------------------------------------------------------------

/// The text without trailing carriage returns.
pub open spec fn drop_trailing_cr(s: Seq<char>) -> Seq<char>
    decreases s.len(),
{
    if s.len() > 0 && s.last() == '\r' {
        drop_trailing_cr(s.drop_last())
    } else {
        s
    }
}

/// The part after the last carriage return (all of it when there is none).
pub open spec fn after_last_cr(s: Seq<char>) -> Seq<char>
    decreases s.len(),
{
    if s.len() == 0 {
        s
    } else if s.last() == '\r' {
        Seq::empty()
    } else {
        after_last_cr(s.drop_last()).push(s.last())
    }
}

/// A line of podman output as shown and copied: escape sequences removed,
/// only what the last carriage return left visible, and no surrounding
/// whitespace.
pub open spec fn cleaned_line(line: Seq<char>) -> Seq<char> {
    trim_seq(after_last_cr(drop_trailing_cr(strip_ansi(line))))
}

/// Normalizes one line of podman output for display and clipboard use (see
/// `cleaned_line`).
pub fn clean_podman_line(line: &str) -> (r: String)
    ensures
        r@ == cleaned_line(line@),
{
    let stripped = strip_ansi_escapes(line);
    let cs = chars_of(stripped.as_str());
    let mut end: usize = cs.len();
    assert(cs@.take(end as int) =~= cs@);
    loop
        invariant
            end <= cs.len(),
            cs@ == stripped@,
            drop_trailing_cr(stripped@) == drop_trailing_cr(cs@.take(end as int)),
        ensures
            end <= cs.len(),
            drop_trailing_cr(stripped@) == cs@.take(end as int),
        decreases end,
    {
        if end == 0 || cs[end - 1] != '\r' {
            break ;
        }
        assert(cs@.take(end as int).drop_last() =~= cs@.take(end - 1));
        end = end - 1;
    }
    let ghost d = cs@.take(end as int);
    let mut start: usize = end;
    loop
        invariant
            start <= end,
            end <= cs.len(),
            d == cs@.take(end as int),
            after_last_cr(d) == after_last_cr(cs@.take(start as int)) + cs@.subrange(
                start as int,
                end as int,
            ),
        ensures
            start <= end,
            after_last_cr(d) == cs@.subrange(start as int, end as int),
        decreases start,
    {
        if start == 0 {
            assert(cs@.take(0) =~= Seq::<char>::empty());
            assert(Seq::<char>::empty() + cs@.subrange(0, end as int) =~= cs@.subrange(0, end as int));
            break ;
        }
        let ghost p = cs@.take(start as int);
        if cs[start - 1] == '\r' {
            assert(p.last() == '\r');
            assert(Seq::<char>::empty() + cs@.subrange(start as int, end as int) =~= cs@.subrange(
                start as int,
                end as int,
            ));
            break ;
        }
        assert(p.drop_last() =~= cs@.take(start - 1));
        assert(after_last_cr(p) == after_last_cr(p.drop_last()).push(p.last()));
        assert(after_last_cr(p.drop_last()).push(p.last()) + cs@.subrange(start as int, end as int)
            =~= after_last_cr(p.drop_last()) + cs@.subrange(start - 1, end as int));
        start = start - 1;
    }
    let mut seg: Vec<char> = Vec::new();
    let mut k: usize = start;
    while k < end
        invariant
            start <= k <= end,
            end <= cs.len(),
            seg@ == cs@.subrange(start as int, k as int),
        decreases end - k,
    {
        seg.push(cs[k]);
        assert(cs@.subrange(start as int, k + 1) =~= cs@.subrange(start as int, k as int).push(
            cs@[k as int],
        ));
        k = k + 1;
    }
    let last = string_from_chars(&seg);
    let t = trim(last.as_str());
    t.to_owned()
}

// ---------------------------------------------------------------------------
// Cleaning twice changes nothing
// ---------------------------------------------------------------------------

pub open spec fn free_of(s: Seq<char>, c: char) -> bool {
    forall|i: int| 0 <= i < s.len() ==> #[trigger] s[i] != c
}

proof fn lemma_strip_no_esc(s: Seq<char>)
    ensures
        free_of(strip_ansi(s), esc()),
    decreases s.len(),
{
    if s.len() == 0 {
    } else if s[0] != esc() {
        lemma_strip_no_esc(s.drop_first());
        let r = seq![s[0]] + strip_ansi(s.drop_first());
        assert forall|i: int| 0 <= i < r.len() implies #[trigger] r[i] != esc() by {
            if i > 0 {
                assert(r[i] == strip_ansi(s.drop_first())[i - 1]);
            }
        }
    } else if s.len() == 1 {
    } else if s[1] == '[' {
        lemma_after_csi_len(s.skip(2));
        lemma_strip_no_esc(after_csi(s.skip(2)));
    } else if s[1] == ']' {
        lemma_after_osc_len(s.skip(2));
        lemma_strip_no_esc(after_osc(s.skip(2)));
    } else {
        lemma_strip_no_esc(s.skip(2));
    }
}

proof fn lemma_strip_identity(s: Seq<char>)
    requires
        free_of(s, esc()),
    ensures
        strip_ansi(s) == s,
    decreases s.len(),
{
    if s.len() > 0 {
        assert(s[0] != esc());
        let t = s.drop_first();
        assert(free_of(t, esc())) by {
            assert forall|i: int| 0 <= i < t.len() implies #[trigger] t[i] != esc() by {
                assert(t[i] == s[i + 1]);
            }
        }
        lemma_strip_identity(t);
        assert(seq![s[0]] + t =~= s);
    }
}

proof fn lemma_drop_cr_props(s: Seq<char>, c: char)
    requires
        free_of(s, c),
    ensures
        free_of(drop_trailing_cr(s), c),
        drop_trailing_cr(s).len() <= s.len(),
        forall|i: int| 0 <= i < drop_trailing_cr(s).len() ==> drop_trailing_cr(s)[i] == s[i],
    decreases s.len(),
{
    if s.len() > 0 && s.last() == '\r' {
        let t = s.drop_last();
        assert(free_of(t, c)) by {
            assert forall|i: int| 0 <= i < t.len() implies #[trigger] t[i] != c by {
                assert(t[i] == s[i]);
            }
        }
        lemma_drop_cr_props(t, c);
        assert forall|i: int| 0 <= i < drop_trailing_cr(s).len() implies drop_trailing_cr(s)[i]
            == s[i] by {
            assert(drop_trailing_cr(s)[i] == t[i]);
        }
    }
}

proof fn lemma_after_cr_props(s: Seq<char>, c: char)
    requires
        free_of(s, c),
    ensures
        free_of(after_last_cr(s), c),
        free_of(after_last_cr(s), '\r'),
    decreases s.len(),
{
    if s.len() > 0 && s.last() != '\r' {
        let t = s.drop_last();
        assert(free_of(t, c)) by {
            assert forall|i: int| 0 <= i < t.len() implies #[trigger] t[i] != c by {
                assert(t[i] == s[i]);
            }
        }
        lemma_after_cr_props(t, c);
        let r = after_last_cr(t).push(s.last());
        assert forall|i: int| 0 <= i < r.len() implies #[trigger] r[i] != c && r[i] != '\r' by {
            if i < r.len() - 1 {
                assert(r[i] == after_last_cr(t)[i]);
            }
        }
    }
}

proof fn lemma_no_cr_identity(s: Seq<char>)
    requires
        free_of(s, '\r'),
    ensures
        drop_trailing_cr(s) == s,
        after_last_cr(s) == s,
    decreases s.len(),
{
    if s.len() > 0 {
        let t = s.drop_last();
        assert(s.last() != '\r');
        assert(free_of(t, '\r')) by {
            assert forall|i: int| 0 <= i < t.len() implies #[trigger] t[i] != '\r' by {
                assert(t[i] == s[i]);
            }
        }
        lemma_no_cr_identity(t);
        assert(t.push(s.last()) =~= s);
    }
}

proof fn lemma_trim_free_of(s: Seq<char>, c: char)
    requires
        free_of(s, c),
    ensures
        free_of(trim_seq(s), c),
{
    crate::strings::lemma_ws_prefix_bound(s);
    let a = s.skip(ws_prefix_len(s) as int);
    crate::strings::lemma_ws_suffix_bound(a);
    let t = trim_seq(s);
    assert forall|i: int| 0 <= i < t.len() implies #[trigger] t[i] != c by {
        assert(t[i] == s[i + ws_prefix_len(s)]);
    }
}

/// Cleaning a cleaned line gives the same line: a cleaned line holds no
/// escape character, no carriage return, and no surrounding whitespace.
pub proof fn lemma_clean_idempotent(line: Seq<char>)
    ensures
        cleaned_line(cleaned_line(line)) == cleaned_line(line),
        free_of(cleaned_line(line), esc()),
        free_of(cleaned_line(line), '\r'),
{
    let a = strip_ansi(line);
    lemma_strip_no_esc(line);
    lemma_drop_cr_props(a, esc());
    let b = drop_trailing_cr(a);
    lemma_after_cr_props(b, esc());
    let c = after_last_cr(b);
    lemma_trim_free_of(c, esc());
    lemma_trim_free_of(c, '\r');
    let t = trim_seq(c);
    lemma_strip_identity(t);
    lemma_no_cr_identity(t);
    lemma_trim_props(c);
}

// ---------------------------------------------------------------------------
// Names derived from an image
// ---------------------------------------------------------------------------

/// `registry/name:version`, the tag a build is given.
pub open spec fn tag_of(registry: Seq<char>, name: Seq<char>, version: Seq<char>) -> Seq<char> {
    registry + seq!['/'] + name + seq![':'] + version
}

/// The image tag a build produces: `{registry}/{name}:{version}`.
pub fn image_tag(registry: &str, name: &str, version: &str) -> (r: String)
    ensures
        r@ == tag_of(registry@, name@, version@),
{
    let mut r = registry.to_owned();
    push_char(&mut r, '/');
    r.append(name);
    push_char(&mut r, ':');
    r.append(version);
    assert(r@ =~= tag_of(registry@, name@, version@));
    r
}

/// `name-version-timestamp.log`.
pub open spec fn log_name(name: Seq<char>, version: Seq<char>, ts: nat) -> Seq<char> {
    name + seq!['-'] + version + seq!['-'] + decimal(ts) + ".log"@
}

/// Filename a dumped build log is written under: `{name}-{version}-{ts}.log`
/// for a Unix timestamp in seconds.
pub fn log_filename(name: &str, version: &str, unix_secs: u64) -> (r: String)
    requires
        unix_secs <= usize::MAX,
    ensures
        r@ == log_name(name@, version@, unix_secs as nat),
{
    let mut r = name.to_owned();
    push_char(&mut r, '-');
    r.append(version);
    push_char(&mut r, '-');
    let ts = usize_to_string(unix_secs as usize);
    r.append(ts.as_str());
    r.append(".log");
    assert(r@ =~= log_name(name@, version@, unix_secs as nat));
    r
}

/// The detail appended to a failed `podman save` message: nothing when it
/// printed nothing, otherwise `: ` and its lines joined by ` | `.
pub open spec fn save_detail(lines: Seq<Seq<char>>) -> Seq<char>
    decreases lines.len(),
{
    if lines.len() == 0 {
        Seq::empty()
    } else if lines.len() == 1 {
        ": "@ + lines[0]
    } else {
        save_detail(lines.drop_last()) + " | "@ + lines.last()
    }
}

/// Detail text for a failed `podman save` (see `save_detail`).
pub fn save_error_detail(stderr_lines: &Vec<String>) -> (r: String)
    ensures
        r@ == save_detail(view_names(stderr_lines@)),
{
    let ghost ls = view_names(stderr_lines@);
    if stderr_lines.len() == 0 {
        return String::new();
    }
    let mut r = ": ".to_owned();
    r.append(stderr_lines[0].as_str());
    assert(ls.take(1) =~= seq![ls[0]]);
    let mut i: usize = 1;
    while i < stderr_lines.len()
        invariant
            1 <= i <= stderr_lines.len(),
            ls == view_names(stderr_lines@),
            r@ == save_detail(ls.take(i as int)),
        decreases stderr_lines.len() - i,
    {
        r.append(" | ");
        r.append(stderr_lines[i].as_str());
        proof {
            let t = ls.take(i + 1);
            assert(t.drop_last() =~= ls.take(i as int));
        }
        i = i + 1;
    }
    assert(ls.take(stderr_lines.len() as int) =~= ls);
    r
}

// ---------------------------------------------------------------------------
// How a build reports back
// ---------------------------------------------------------------------------

/// The first log line of a build: `Building <name>:<version> with
/// <dockerfile> in <context>` (paths as displayed).
pub fn build_started_line(name: &str, version: &str, dockerfile: &str, context: &str) -> (r: String)
    ensures
        r@ == "Building "@ + name@ + seq![':'] + version@ + " with "@ + dockerfile@ + " in "@ + context@,
{
    let mut r = "Building ".to_owned();
    r.append(name);
    push_char(&mut r, ':');
    r.append(version);
    r.append(" with ");
    r.append(dockerfile);
    r.append(" in ");
    r.append(context);
    r
}

/// The error of a failed `podman save`: its exit status (as displayed) and
/// what it printed (see `save_detail`).
pub fn save_failure_message(status: &str, stderr_lines: &Vec<String>) -> (r: String)
    ensures
        r@ == "podman save exited with status: "@ + status@ + save_detail(view_names(stderr_lines@)),
{
    let mut r = "podman save exited with status: ".to_owned();
    r.append(status);
    let d = save_error_detail(stderr_lines);
    r.append(d.as_str());
    r
}

/// How a build ends: its own outcome, and after a successful build the
/// outcome of saving the tarball.
pub open spec fn completion_of(build: Result<(), Seq<char>>, save: Option<Result<(), Seq<char>>>) -> (
    Result<(), Seq<char>>,
    bool,
) {
    match build {
        Err(e) => (Err(e), false),
        Ok(()) => match save {
            Some(Ok(())) => (Ok(()), true),
            Some(Err(e)) => (Err("Save error: "@ + e), false),
            None => (Ok(()), false),
        },
    }
}

pub open spec fn save_view(save: Option<Result<(), String>>) -> Option<Result<(), Seq<char>>> {
    match save {
        Some(r) => Some(unit_result_view(r)),
        None => None,
    }
}

pub open spec fn unit_result_view(r: Result<(), String>) -> Result<(), Seq<char>> {
    match r {
        Ok(()) => Ok(()),
        Err(e) => Err(e@),
    }
}

/// The event that ends a build (see `completion_of`); a save is attempted
/// only after a successful build.
pub fn build_completion(image_name: String, build: Result<(), String>, save: Option<Result<(), String>>) -> (e: BuildEvent)
    requires
        (build is Ok) == (save is Some),
    ensures
        e matches BuildEvent::BuildComplete { image_name: n, result, tarball_written } && n@ == image_name@
            && (unit_result_view(result), tarball_written) == completion_of(
            unit_result_view(build),
            save_view(save),
        ),
{
    match build {
        Err(e) => BuildEvent::BuildComplete { image_name, result: Err(e), tarball_written: false },
        Ok(()) => match save {
            Some(Ok(())) => BuildEvent::BuildComplete { image_name, result: Ok(()), tarball_written: true },
            Some(Err(e)) => {
                let mut m = "Save error: ".to_owned();
                m.append(e.as_str());
                BuildEvent::BuildComplete { image_name, result: Err(m), tarball_written: false }
            },
            None => BuildEvent::BuildComplete { image_name, result: Ok(()), tarball_written: false },
        },
    }
}

} // verus!
