//! What the progress display shows.

use crate::progress::{ItemTotal, Phase};
use crate::text::{
    decimal, decimal_text, digit_char, join2, join4, join5, occurs_at, starts_with,
};
use vstd::prelude::*;

verus! {

// ---------------------------------------------------------------------------
// Sizes
// ---------------------------------------------------------------------------

/// `n / d` rounded to the nearest whole number, to the even one where both are as near.
pub open spec fn nearest_even(n: nat, d: nat) -> nat {
    let q = n / d;
    let r = n % d;
    if 2 * r > d || (2 * r == d && q % 2 == 1) {
        q + 1
    } else {
        q
    }
}

/// The distance of the double-precision numbers around `n`: 1 up to 53 bits, and twice as much
/// for each bit more.
pub open spec fn spacing(n: nat) -> nat
    decreases n,
{
    if n < 9007199254740992 {
        1
    } else {
        2 * spacing(n / 2)
    }
}

/// `n` to double precision.
pub open spec fn to_double(n: nat) -> nat {
    nearest_even(n, spacing(n)) * spacing(n)
}

/// The unit for a number of bytes, and its size. There is none beyond TiB.
pub open spec fn unit_for(d: nat) -> (Seq<char>, nat) {
    if d < 1048576 {
        ("KiB"@, 1024)
    } else if d < 1073741824 {
        ("MiB"@, 1048576)
    } else if d < 1099511627776 {
        ("GiB"@, 1073741824)
    } else {
        ("TiB"@, 1099511627776)
    }
}

/// A number of tenths with one decimal.
pub open spec fn tenths_text(n: nat) -> Seq<char> {
    decimal(n / 10) + "."@ + decimal(n % 10)
}

/// A number of bytes for people: whole bytes below 1024, and otherwise one decimal in the largest
/// unit that fits, rounded to the nearest and to even.
pub open spec fn bytes_text(bytes: nat) -> Seq<char> {
    if bytes < 1024 {
        decimal(bytes) + " B"@
    } else {
        let d = to_double(bytes);
        let (unit, size) = unit_for(d);
        tenths_text(nearest_even(10 * d, size)) + " "@ + unit
    }
}

/// `n / d` rounded to the nearest, ties to even.
fn round_even(n: u128, d: u128) -> (r: u128)
    requires
        0 < d,
        n <= 0xffff_ffff_ffff_ffff_ffff,
        d <= 0xffff_ffff_ffff_ffff_ffff,
    ensures
        r == nearest_even(n as nat, d as nat),
        r <= n / d + 1,
{
    let q: u128 = n / d;
    let r: u128 = n % d;
    proof {
        vstd::arithmetic::div_mod::lemma_div_is_ordered_by_denominator(n as int, 1, d as int);
        assert(n / 1u128 == n);
    }
    if 2 * r > d || (2 * r == d && q % 2 == 1) {
        q + 1
    } else {
        q
    }
}

/// The distance of the double-precision numbers around `n`.
fn double_spacing(n: u64) -> (r: u64)
    ensures
        r == spacing(n as nat),
        1 <= r <= 2048,
{
    let mut m: u64 = n;
    let mut u: u64 = 1;
    proof {
        vstd::arithmetic::power2::lemma2_to64();
        spacing_is_small(n as nat, 11);
    }
    while m >= 9007199254740992
        invariant
            u * spacing(m as nat) == spacing(n as nat),
            1 <= spacing(n as nat) <= 2048,
            1 <= u <= 2048,
        decreases m,
    {
        proof {
            spacing_is_positive((m / 2) as nat);
            assert(u * (2 * spacing((m / 2) as nat)) == (2 * u) * spacing((m / 2) as nat))
                by (nonlinear_arith);
            assert(2 * u <= (2 * u) * spacing((m / 2) as nat)) by (nonlinear_arith)
                requires
                    spacing((m / 2) as nat) >= 1,
            ;
        }
        m = m / 2;
        u = 2 * u;
    }
    assert(u * 1 == u);
    u
}

proof fn spacing_is_positive(n: nat)
    ensures
        spacing(n) >= 1,
    decreases n,
{
    if n >= 9007199254740992 {
        spacing_is_positive(n / 2);
    }
}

/// Numbers of at most `53 + k` bits are spaced by at most `2^k`.
proof fn spacing_is_small(n: nat, k: nat)
    requires
        k <= 11,
        n < 9007199254740992 * vstd::arithmetic::power2::pow2(k),
    ensures
        1 <= spacing(n) <= vstd::arithmetic::power2::pow2(k),
    decreases k,
{
    vstd::arithmetic::power2::lemma2_to64();
    if n >= 9007199254740992 {
        if k > 0 {
            vstd::arithmetic::power2::lemma_pow2_unfold(k);
            spacing_is_small(n / 2, (k - 1) as nat);
        }
    } else {
        vstd::arithmetic::power2::lemma_pow2_pos(k);
    }
}

/// Format a byte count using 1024-scaled units (B / KiB / MiB / GiB / TiB).
pub fn human_bytes(bytes: u64) -> (r: String)
    ensures
        r@ == bytes_text(bytes as nat),
{
    if bytes < 1024 {
        return join2(decimal_text(bytes).as_str(), " B");
    }
    let u = double_spacing(bytes);
    let q = round_even(bytes as u128, u as u128);
    proof {
        vstd::arithmetic::div_mod::lemma_fundamental_div_mod(bytes as int, u as int);
        assert((bytes / u + 1) * u <= bytes + u) by (nonlinear_arith)
            requires
                bytes == u * (bytes / u) + bytes % u,
                u > 0,
        ;
        assert(q * u <= (bytes / u + 1) * u) by (nonlinear_arith)
            requires
                q <= bytes / u + 1,
        ;
    }
    let d: u128 = q * (u as u128);
    let (unit, size): (&str, u128) = if d < 1048576 {
        ("KiB", 1024)
    } else if d < 1073741824 {
        ("MiB", 1048576)
    } else if d < 1099511627776 {
        ("GiB", 1073741824)
    } else {
        ("TiB", 1099511627776)
    };
    let ten: u128 = 10 * d;
    let tenths = round_even(ten, size);
    assert(ten / size < 0xffff_ffff_ffff_ffff) by (nonlinear_arith)
        requires
            ten <= 10 * (0xffff_ffff_ffff_ffff + 2048),
            size >= 1024,
    ;
    let whole = decimal_text((tenths / 10) as u64);
    let rest = decimal_text((tenths % 10) as u64);
    join5(whole.as_str(), ".", rest.as_str(), " ", unit)
}

// ---------------------------------------------------------------------------
// The bar
// ---------------------------------------------------------------------------

/// What kind of bar is drawn.
#[derive(Debug, Clone, Copy, PartialEq, Eq, Structural)]
pub enum BarMode {
    Spinner,
    Count,
    Bytes { items_total: u64, items_done: u64 },
}

/// The bar on screen.
#[derive(Debug, Clone, Copy, PartialEq, Eq, Structural)]
pub struct ActiveBar {
    pub phase: Phase,
    pub mode: BarMode,
    /// Whether the phase has ticked. A phase that ends without ticking was preempted, and is not
    /// announced.
    pub ticked: bool,
}

/// What kind of bar to put on screen for a phase.
#[derive(Debug, Clone, Copy, PartialEq, Eq, Structural)]
pub enum BarKind {
    Spinner,
    /// A bar that counts up to a number of items.
    Count(u64),
    /// A bar that counts up to a number of bytes.
    Bytes(u64),
}

/// How a tick moves the bar.
#[derive(Debug)]
pub enum BarTick {
    /// No bar moves.
    Still,
    /// The bar moves on.
    Advance(u64),
    /// The bar moves on, and says how many files are done.
    AdvanceFiles { bytes: u64, message: String },
}

/// What the end of a phase does on screen.
#[derive(Debug, Clone, Copy, PartialEq, Eq, Structural)]
pub enum BarEnd {
    /// Another phase is on screen, or none: nothing happens.
    Ignore,
    /// The bar goes away, without a word.
    Clear,
    /// The bar goes away, and the phase is announced as done.
    Announce,
}

/// The bar that a phase gets.
pub open spec fn bar_for(phase: Phase, total: ItemTotal) -> ActiveBar {
    ActiveBar {
        phase,
        mode: match total {
            ItemTotal::Unknown => BarMode::Spinner,
            ItemTotal::Count(_) => BarMode::Count,
            ItemTotal::Bytes { items, .. } => BarMode::Bytes { items_total: items, items_done: 0 },
        },
        ticked: false,
    }
}

/// The kind of bar that is drawn for a total.
pub open spec fn kind_for(total: ItemTotal) -> BarKind {
    match total {
        ItemTotal::Unknown => BarKind::Spinner,
        ItemTotal::Count(n) => BarKind::Count(n),
        ItemTotal::Bytes { bytes, .. } => BarKind::Bytes(bytes),
    }
}

/// Whether a tick of so many items and bytes makes `now` of the bar on screen, and moves it by
/// `r`.
pub open spec fn is_tick(
    was: Option<ActiveBar>,
    now: Option<ActiveBar>,
    items: u64,
    bytes: u64,
    r: BarTick,
) -> bool {
    match was {
        None => now is None && r is Still,
        Some(bar) => match bar.mode {
            BarMode::Spinner => r is Still && now == Some(ActiveBar { ticked: true, ..bar }),
            BarMode::Count => r == BarTick::Advance(items) && now == Some(
                ActiveBar { ticked: true, ..bar },
            ),
            BarMode::Bytes { items_total, items_done } => {
                &&& now == Some(
                    ActiveBar {
                        ticked: true,
                        mode: BarMode::Bytes {
                            items_total,
                            items_done: (items_done + items) as u64,
                        },
                        ..bar
                    },
                )
                &&& r matches BarTick::AdvanceFiles { bytes: n, message }
                &&& n == bytes
                &&& message@ == files_message(
                    bar.phase,
                    (items_done + items) as u64,
                    items_total,
                )
            },
        },
    }
}

/// What a bar for bytes says.
pub open spec fn files_message(phase: Phase, done: u64, total: u64) -> Seq<char> {
    phase.label_text() + " ("@ + decimal(done as nat) + "/"@ + (decimal(total as nat) + " files)"@)
}

/// What ending `phase` does to the bar on screen.
pub open spec fn ending(active: Option<ActiveBar>, phase: Phase) -> BarEnd {
    match active {
        Some(bar) if bar.phase == phase => if bar.mode is Spinner || bar.ticked {
            BarEnd::Announce
        } else {
            BarEnd::Clear
        },
        _ => BarEnd::Ignore,
    }
}

/// The progress display: at most one bar at a time.
#[derive(Debug)]
pub struct ProgressDisplay {
    active: Option<ActiveBar>,
}

impl ProgressDisplay {
    /// The bar on screen.
    pub closed spec fn active(&self) -> Option<ActiveBar> {
        self.active
    }

    /// A display without a bar.
    pub fn new() -> (r: Self)
        ensures
            r.active() is None,
    {
        ProgressDisplay { active: None }
    }

    /// Starts a phase; says which bar to draw. A bar on screen gives way to it.
    pub fn start(&mut self, phase: Phase, total: ItemTotal) -> (r: BarKind)
        ensures
            final(self).active() == Some(bar_for(phase, total)),
            r == kind_for(total),
    {
        let (kind, mode) = match total {
            ItemTotal::Unknown => (BarKind::Spinner, BarMode::Spinner),
            ItemTotal::Count(n) => (BarKind::Count(n), BarMode::Count),
            ItemTotal::Bytes { items, bytes } => (
                BarKind::Bytes(bytes),
                BarMode::Bytes { items_total: items, items_done: 0 },
            ),
        };
        self.active = Some(ActiveBar { phase, mode, ticked: false });
        kind
    }

    /// Whether the count of files done can take `items` more.
    pub open spec fn can_take(&self, items: u64) -> bool {
        match self.active() {
            Some(ActiveBar { mode: BarMode::Bytes { items_done, .. }, .. }) => items_done + items
                <= u64::MAX,
            _ => true,
        }
    }

    /// Whether the count of files done can take `items` more.
    pub fn has_room(&self, items: u64) -> (r: bool)
        ensures
            r == self.can_take(items),
    {
        match self.active {
            Some(bar) => match bar.mode {
                BarMode::Bytes { items_done, .. } => items <= u64::MAX - items_done,
                _ => true,
            },
            None => true,
        }
    }

    /// Moves the bar on.
    pub fn tick(&mut self, items: u64, bytes: u64) -> (r: BarTick)
        requires
            old(self).can_take(items),
        ensures
            is_tick(old(self).active(), final(self).active(), items, bytes, r),
    {
        match self.active {
            None => BarTick::Still,
            Some(bar) => match bar.mode {
                BarMode::Spinner => {
                    self.active = Some(ActiveBar { phase: bar.phase, mode: bar.mode, ticked: true });
                    BarTick::Still
                },
                BarMode::Count => {
                    self.active = Some(ActiveBar { phase: bar.phase, mode: bar.mode, ticked: true });
                    BarTick::Advance(items)
                },
                BarMode::Bytes { items_total, items_done } => {
                    let done: u64 = items_done + items;
                    self.active = Some(
                        ActiveBar {
                            phase: bar.phase,
                            mode: BarMode::Bytes { items_total, items_done: done },
                            ticked: true,
                        },
                    );
                    let head = join4(
                        bar.phase.label(),
                        " (",
                        decimal_text(done).as_str(),
                        "/",
                    );
                    let tail = join2(decimal_text(items_total).as_str(), " files)");
                    BarTick::AdvanceFiles { bytes, message: join2(head.as_str(), tail.as_str()) }
                },
            },
        }
    }

    /// Ends a phase.
    pub fn end(&mut self, phase: Phase) -> (r: BarEnd)
        ensures
            r == ending(old(self).active(), phase),
            final(self).active() == if r == BarEnd::Ignore {
                old(self).active()
            } else {
                None
            },
    {
        match self.active {
            Some(bar) => {
                if bar.phase == phase {
                    self.active = None;
                    let spinner = match bar.mode {
                        BarMode::Spinner => true,
                        _ => false,
                    };
                    if spinner || bar.ticked {
                        BarEnd::Announce
                    } else {
                        BarEnd::Clear
                    }
                } else {
                    BarEnd::Ignore
                }
            },
            None => BarEnd::Ignore,
        }
    }
}

// ---------------------------------------------------------------------------
// Log lines
// ---------------------------------------------------------------------------

/// Whether a log line is shown: retry warnings always are, other lines where the user asked for
/// them.
pub open spec fn is_shown(verbose: bool, msg: Seq<char>) -> bool {
    verbose || occurs_at(msg, "retry "@, 0)
}

/// Whether a log line is shown.
pub fn shows_log(verbose: bool, msg: &str) -> (r: bool)
    ensures
        r == is_shown(verbose, msg@),
{
    verbose || starts_with(msg, "retry ")
}

/// Reports nothing but log lines: for output that is no terminal, or where the user wants no
/// progress display.
#[derive(Debug)]
pub struct NullCliReporter {
    verbose: bool,
}

impl NullCliReporter {
    /// Whether all log lines are shown.
    pub closed spec fn verbose(&self) -> bool {
        self.verbose
    }

    pub fn new(verbose: bool) -> (r: Self)
        ensures
            r.verbose() == verbose,
    {
        NullCliReporter { verbose }
    }

    /// Whether a log line is printed.
    pub fn prints(&self, msg: &str) -> (r: bool)
        ensures
            r == is_shown(self.verbose(), msg@),
    {
        shows_log(self.verbose, msg)
    }
}

/// Whether the progress display is off.
pub open spec fn is_disabled(no_progress_flag: bool, env_set: bool, is_terminal: bool) -> bool {
    no_progress_flag || env_set || !is_terminal
}

/// Whether the progress display is off: by flag, by environment, or because the output is no
/// terminal.
pub fn progress_disabled(no_progress_flag: bool, env_set: bool, is_terminal: bool) -> (r: bool)
    ensures
        r == is_disabled(no_progress_flag, env_set, is_terminal),
{
    no_progress_flag || env_set || !is_terminal
}

// ---------------------------------------------------------------------------
// Laws
// ---------------------------------------------------------------------------

/// A phase that was given way before it did anything is not announced, and a late end of it
/// leaves the bar that took its place alone.
pub proof fn preempted_phases_are_silent(
    before: ProgressDisplay,
    outer: Phase,
    inner: Phase,
    total: ItemTotal,
)
    requires
        outer != inner,
        before.active() == Some(bar_for(inner, total)),
    ensures
        ending(before.active(), outer) == BarEnd::Ignore,
{
}

/// Ending a phase twice is ending it once.
pub proof fn second_end_is_ignored(phase: Phase, first: Option<ActiveBar>, then: Option<ActiveBar>)
    requires
        then == if ending(first, phase) == BarEnd::Ignore {
            first
        } else {
            None
        },
    ensures
        ending(then, phase) == BarEnd::Ignore,
{
}

/// Rounding goes to the nearest whole number; where two are as near, to the even one.
pub proof fn rounding_is_to_the_nearest(n: nat, d: nat)
    requires
        d > 0,
    ensures
        2 * (nearest_even(n, d) * d) <= 2 * n + d,
        2 * n <= 2 * (nearest_even(n, d) * d) + d,
        2 * (nearest_even(n, d) * d) == 2 * n + d || 2 * n == 2 * (nearest_even(n, d) * d) + d
            ==> nearest_even(n, d) % 2 == 0,
{
    let q = n / d;
    let r = n % d;
    vstd::arithmetic::div_mod::lemma_fundamental_div_mod(n as int, d as int);
    assert(q * d == d * q) by (nonlinear_arith);
    assert((q + 1) * d == d * q + d) by (nonlinear_arith);
}

/// Numbers of 53 bits are doubles as they are.
pub proof fn small_numbers_are_doubles(n: nat)
    requires
        n < 9007199254740992,
    ensures
        to_double(n) == n,
{
    assert(n / 1 == n && n % 1 == 0) by (nonlinear_arith);
    assert(nearest_even(n, 1) == n);
    assert(n * 1 == n) by (nonlinear_arith);
}

/// The unit is the largest that fits, but there is none beyond TiB.
pub proof fn units_fit(d: nat)
    requires
        d >= 1024,
    ensures
        unit_for(d).1 <= d,
        d < 1024 * unit_for(d).1 || unit_for(d).0 == "TiB"@,
        unit_for(d).0 == "KiB"@ ==> unit_for(d).1 == 1024,
        unit_for(d).0 == "MiB"@ ==> unit_for(d).1 == 1024 * 1024,
        unit_for(d).0 == "GiB"@ ==> unit_for(d).1 == 1024 * 1024 * 1024,
        unit_for(d).0 == "TiB"@ ==> unit_for(d).1 == 1024 * 1024 * 1024 * 1024,
{
    reveal_strlit("KiB");
    reveal_strlit("MiB");
    reveal_strlit("GiB");
    reveal_strlit("TiB");
    assert("KiB"@[0] == 'K' && "MiB"@[0] == 'M' && "GiB"@[0] == 'G' && "TiB"@[0] == 'T');
}

/// A number of bytes below a KiB is shown as it is. A larger one is shown by the nearest number of
/// tenths of its unit, once it is taken to double precision.
pub proof fn sizes_are_shown_to_a_tenth(bytes: nat)
    ensures
        bytes < 1024 ==> bytes_text(bytes) == decimal(bytes) + " B"@,
        bytes >= 1024 ==> exists|tenths: nat|
            {
                let d = to_double(bytes);
                let (unit, size) = unit_for(d);
                &&& #[trigger] tenths_text(tenths) + " "@ + unit == bytes_text(bytes)
                &&& 2 * (tenths * size) <= 20 * d + size
                &&& 20 * d <= 2 * (tenths * size) + size
                &&& 2 * (tenths * size) == 20 * d + size || 20 * d == 2 * (tenths * size) + size
                    ==> tenths % 2 == 0
            },
{
    if bytes >= 1024 {
        let d = to_double(bytes);
        let (unit, size) = unit_for(d);
        rounding_is_to_the_nearest(10 * d, size);
        let tenths = nearest_even(10 * d, size);
        assert(tenths_text(tenths) + " "@ + unit == bytes_text(bytes));
    }
}

/// Tenths are shown as a whole number and one digit behind the point.
pub proof fn tenths_have_one_decimal(n: nat)
    ensures
        tenths_text(n) == decimal(n / 10) + seq!['.', digit_char(n % 10)],
{
    reveal_strlit(".");
    assert(decimal(n % 10) =~= seq![digit_char(n % 10)]);
    assert(decimal(n / 10) + "."@ + decimal(n % 10) =~= decimal(n / 10) + seq![
        '.',
        digit_char(n % 10),
    ]);
}

/// The end of a phase concerns the bar on screen only if it is the bar of that phase. It is then
/// announced exactly if it ticked or has nothing to count.
pub proof fn phases_are_announced_once_they_ticked(active: Option<ActiveBar>, phase: Phase)
    ensures
        ending(active, phase) == BarEnd::Ignore <==> !(active matches Some(bar) && bar.phase
            == phase),
        ending(active, phase) == BarEnd::Announce <==> (active matches Some(bar) && bar.phase == phase
            && (bar.ticked || bar.mode == BarMode::Spinner)),
        ending(active, phase) == BarEnd::Clear <==> (active matches Some(bar) && bar.phase == phase
            && !bar.ticked && bar.mode != BarMode::Spinner),
{
}

/// A phase starts with nothing done. It has a spinner exactly if nobody knows how much there is to
/// do.
pub proof fn bars_start_at_nothing(phase: Phase, total: ItemTotal)
    ensures
        bar_for(phase, total).phase == phase,
        !bar_for(phase, total).ticked,
        bar_for(phase, total).mode == BarMode::Spinner <==> total == ItemTotal::Unknown,
        bar_for(phase, total).mode == BarMode::Count <==> total is Count,
        total matches ItemTotal::Bytes { items, .. } ==> bar_for(phase, total).mode == (
        BarMode::Bytes { items_total: items, items_done: 0 }),
{
}

/// A line is shown to a user who did not ask for all exactly if it starts with the word `retry`
/// and a blank; one who did ask sees every line.
pub proof fn retries_are_always_shown(msg: Seq<char>, rest: Seq<char>)
    ensures
        is_shown(true, msg),
        is_shown(false, "retry "@ + rest),
        is_shown(false, msg) ==> msg.len() >= 6 && msg.subrange(0, 6) == "retry "@,
{
    reveal_strlit("retry ");
    assert(("retry "@ + rest).subrange(0, 6) =~= "retry "@);
}

/// The progress display is on exactly if the output is a terminal and nothing speaks against it.
pub proof fn progress_is_for_terminals(no_progress_flag: bool, env_set: bool, is_terminal: bool)
    ensures
        !is_disabled(no_progress_flag, env_set, is_terminal) <==> is_terminal && !no_progress_flag
            && !env_set,
{
}

/// The bar that is drawn counts up to what there is to do, and fits the mode that the display
/// keeps.
pub proof fn bars_count_up_to_the_total(phase: Phase, total: ItemTotal)
    ensures
        total matches ItemTotal::Count(n) ==> kind_for(total) == BarKind::Count(n),
        total matches ItemTotal::Bytes { bytes, .. } ==> kind_for(total) == BarKind::Bytes(bytes),
        kind_for(total) == BarKind::Spinner <==> bar_for(phase, total).mode == BarMode::Spinner,
        kind_for(total) is Count <==> bar_for(phase, total).mode is Count,
        kind_for(total) is Bytes <==> bar_for(phase, total).mode is Bytes,
{
}

/// A tick moves the bar by what it counts: items, or bytes, of which it says then how many files
/// they were; a spinner does not move. The phase on screen stays the same, and has ticked.
pub proof fn ticks_move_the_bar(
    was: Option<ActiveBar>,
    now: Option<ActiveBar>,
    items: u64,
    bytes: u64,
    r: BarTick,
)
    requires
        is_tick(was, now, items, bytes, r),
    ensures
        now is Some <==> was is Some,
        was matches Some(bar) ==> {
            let after = now->Some_0;
            &&& after.phase == bar.phase
            &&& after.ticked
            &&& bar.mode is Spinner ==> r is Still && after.mode is Spinner
            &&& bar.mode is Count ==> r == BarTick::Advance(items) && after.mode is Count
            &&& bar.mode matches BarMode::Bytes { items_total, items_done } ==> (items_done + items
                <= u64::MAX ==> {
                &&& after.mode matches BarMode::Bytes { items_total: t, items_done: d } && t
                    == items_total && d == items_done + items
                &&& r matches BarTick::AdvanceFiles { bytes: n, message } && n == bytes && message@
                    == bar.phase.label_text() + " ("@ + decimal((items_done + items) as nat) + "/"@
                    + (decimal(items_total as nat) + " files)"@)
            })
        },
{
}

/// The doubles around a number lie as close as 53 bits allow.
pub proof fn doubles_have_53_bits(n: nat)
    ensures
        n < 9007199254740992 * spacing(n),
        spacing(n) == 1 || 4503599627370496 * spacing(n) <= n,
    decreases n,
{
    if n >= 9007199254740992 {
        doubles_have_53_bits(n / 2);
    }
}

/// A number to double precision is a number of steps of the doubles around it, and the nearest.
pub proof fn doubles_are_nearest(n: nat)
    ensures
        2 * to_double(n) <= 2 * n + spacing(n),
        2 * n <= 2 * to_double(n) + spacing(n),
{
    spacing_is_positive(n);
    rounding_is_to_the_nearest(n, spacing(n));
}

} // verus!
