//! The tmux right-side status segment: battery, memory and time, styled
//! with the theme's tmux palette.
use vstd::prelude::*;
use crate::cache::HostCacheEntry;
use crate::config::Config;
use crate::text::{
    concat, copy_str, dec, digit_char, join_strings, join_with, opt_str, opt_view, push_all,
    push_decimal, views,
};
use crate::theme::{nonblank, Theme, TmuxPalette};

verus! {

/// Which tmux status area to render.
#[derive(Debug, Clone, Copy, PartialEq, Eq, Structural)]
pub enum TmuxTarget {
    Right,
}

/// The host data that the status segment shows.
#[derive(Debug, Clone)]
pub struct TmuxContext {
    pub battery_percent: Option<u8>,
    pub memory_used_bytes: Option<u64>,
    pub memory_total_bytes: Option<u64>,
    pub time_label: Option<String>,
}

impl Default for TmuxContext {
    /// Nothing known.
    fn default() -> (r: Self)
        ensures
            r.battery_percent is None,
            r.memory_used_bytes is None,
            r.memory_total_bytes is None,
            r.time_label is None,
    {
        TmuxContext {
            battery_percent: None,
            memory_used_bytes: None,
            memory_total_bytes: None,
            time_label: None,
        }
    }
}

/// The tmux context carried by a host cache entry.
pub fn tmux_context(host_cache: &HostCacheEntry) -> (r: TmuxContext)
    ensures
        r.battery_percent == host_cache.battery_percent,
        r.memory_used_bytes == host_cache.memory_used_bytes,
        r.memory_total_bytes == host_cache.memory_total_bytes,
        opt_view(r.time_label) == opt_view(host_cache.time_label),
{
    TmuxContext {
        battery_percent: host_cache.battery_percent,
        memory_used_bytes: host_cache.memory_used_bytes,
        memory_total_bytes: host_cache.memory_total_bytes,
        time_label: match &host_cache.time_label {
            Some(t) => Some(copy_str(t)),
            None => None,
        },
    }
}

// ---------------------------------------------------------------------------
// Byte sizes
// ---------------------------------------------------------------------------
/// `2^k`.
pub open spec fn pow2(k: nat) -> nat
    decreases k,
{
    if k == 0 {
        1
    } else {
        2 * pow2((k - 1) as nat)
    }
}

/// The number of binary digits of `b` (0 for 0).
pub open spec fn bit_len(b: nat) -> nat
    decreases b,
{
    if b == 0 {
        0
    } else {
        1 + bit_len(b / 2)
    }
}

/// `n / d` rounded to the nearest integer, ties to even.
pub open spec fn round_div(n: nat, d: nat) -> nat {
    let q = n / d;
    let r = n % d;
    if 2 * r > d {
        q + 1
    } else if 2 * r < d {
        q
    } else if q % 2 == 1 {
        q + 1
    } else {
        q
    }
}

/// The value of `b as f64`: `b` rounded to 53 significant bits, ties to
/// even.
pub open spec fn as_f64(b: nat) -> nat {
    if bit_len(b) <= 53 {
        b
    } else {
        let s = pow2((bit_len(b) - 53) as nat);
        round_div(b, s) * s
    }
}

/// One decimal place, from a count of tenths.
pub open spec fn tenths_text(t: nat) -> Seq<char> {
    dec(t / 10) + "."@ + seq![digit_char((t % 10) as int)]
}

/// `1024`, `1024^2` or `1024^3`.
pub open spec fn kib() -> nat {
    1024
}

pub open spec fn mib() -> nat {
    1024 * 1024
}

pub open spec fn gib() -> nat {
    1024 * 1024 * 1024
}

/// A byte count in the largest binary unit it reaches, to one decimal place
/// (`8.0G`, `512.0M`, `1.5K`), or in bytes below one KiB (`512B`). The value
/// is that of the count as a 64-bit float, rounded half to even.
pub open spec fn human(bytes: u64) -> Seq<char> {
    let b = bytes as nat;
    if b >= gib() {
        tenths_text(round_div(10 * as_f64(b), gib())) + "G"@
    } else if b >= mib() {
        tenths_text(round_div(10 * as_f64(b), mib())) + "M"@
    } else if b >= kib() {
        tenths_text(round_div(10 * as_f64(b), kib())) + "K"@
    } else {
        dec(b) + "B"@
    }
}

proof fn lemma_bit_len_bound(b: nat, n: nat)
    requires
        b < pow2(n),
    ensures
        bit_len(b) <= n,
    decreases n,
{
    if b > 0 && n > 0 {
        lemma_bit_len_bound(b / 2, (n - 1) as nat);
    }
}

proof fn lemma_pow2_64()
    ensures
        pow2(64) == 0x1_0000_0000_0000_0000,
        pow2(11) == 2048,
{
    reveal_with_fuel(pow2, 65);
}

proof fn lemma_pow2_mono(j: nat, k: nat)
    requires
        j <= k,
    ensures
        pow2(j) <= pow2(k),
    decreases k,
{
    if j < k {
        lemma_pow2_mono(j, (k - 1) as nat);
    }
}

fn bit_length(b: u64) -> (r: u64)
    ensures
        r == bit_len(b as nat),
        r <= 64,
{
    proof {
        lemma_pow2_64();
        lemma_bit_len_bound(b as nat, 64);
    }
    let mut x = b;
    let mut n: u64 = 0;
    while x > 0
        invariant
            n + bit_len(x as nat) == bit_len(b as nat),
            bit_len(b as nat) <= 64,
        decreases x,
    {
        x = x / 2;
        n = n + 1;
    }
    n
}

fn round_div_exec(n: u128, d: u128) -> (r: u128)
    requires
        d > 0,
        d <= 0x1_0000_0000_0000_0000,
        n <= 0x10_0000_0000_0000_0000,
    ensures
        r == round_div(n as nat, d as nat),
        r <= n / d + 1,
{
    let q = n / d;
    let r = n % d;
    proof {
        vstd::arithmetic::div_mod::lemma_div_is_ordered_by_denominator(n as int, 1, d as int);
        vstd::arithmetic::div_mod::lemma_mod_bound(n as int, d as int);
    }
    if 2 * r > d {
        q + 1
    } else if 2 * r < d {
        q
    } else if q % 2 == 1 {
        q + 1
    } else {
        q
    }
}

fn f64_value(b: u64) -> (r: u128)
    ensures
        r == as_f64(b as nat),
        r <= 0x1_0000_0000_0000_0000,
{
    let n = bit_length(b);
    if n <= 53 {
        return b as u128;
    }
    let k = n - 53;
    let mut s: u128 = 1;
    let mut j: u64 = 0;
    proof {
        lemma_pow2_64();
    }
    while j < k
        invariant
            j <= k <= 11,
            s == pow2(j as nat),
            1 <= s <= 2048,
            pow2(11) == 2048,
        decreases k - j,
    {
        proof {
            lemma_pow2_mono(j as nat, 10);
            reveal_with_fuel(pow2, 11);
        }
        s = s * 2;
        j = j + 1;
    }
    let q = round_div_exec(b as u128, s);
    proof {
        lemma_pow2_mono(k as nat, 11);
        assert(q * s <= 0x1_0000_0000_0000_0000) by {
            // b < 2^n and s = 2^(n-53), so b / s < 2^53 and the rounded
            // quotient is at most 2^53; times s it is at most 2^n <= 2^64.
            lemma_round_div_scaled(b as nat, n as nat, k as nat);
        }
    }
    q * s
}

proof fn lemma_pow2_add(a: nat, b: nat)
    ensures
        pow2(a + b) == pow2(a) * pow2(b),
    decreases a,
{
    if a > 0 {
        lemma_pow2_add((a - 1) as nat, b);
        assert(pow2(a + b) == 2 * pow2((a - 1 + b) as nat));
        assert(pow2(a) == 2 * pow2((a - 1) as nat));
        vstd::arithmetic::mul::lemma_mul_is_associative(2, pow2((a - 1) as nat) as int, pow2(b) as int);
    } else {
        assert(pow2(0) == 1);
        assert(a + b == b);
    }
}

proof fn lemma_below_pow2_bit_len(b: nat)
    ensures
        b < pow2(bit_len(b)),
    decreases b,
{
    if b > 0 {
        lemma_below_pow2_bit_len(b / 2);
    }
}

proof fn lemma_pow2_53()
    ensures
        pow2(53) == 0x20_0000_0000_0000,
{
    reveal_with_fuel(pow2, 54);
}

proof fn lemma_pow2_pos(k: nat)
    ensures
        pow2(k) >= 1,
    decreases k,
{
    if k > 0 {
        lemma_pow2_pos((k - 1) as nat);
    }
}

proof fn lemma_round_div_le(n: nat, d: nat, c: nat)
    requires
        d > 0,
        n / d < c,
    ensures
        round_div(n, d) <= c,
{
}

#[verifier::rlimit(30)]
proof fn lemma_round_div_scaled(b: nat, n: nat, k: nat)
    requires
        n == bit_len(b),
        n <= 64,
        n >= 53,
        k == n - 53,
    ensures
        round_div(b, pow2(k)) * pow2(k) <= 0x1_0000_0000_0000_0000,
{
    let s = pow2(k);
    let p53 = pow2(53);
    lemma_below_pow2_bit_len(b);
    lemma_pow2_add(53, k);
    lemma_pow2_64();
    lemma_pow2_53();
    lemma_pow2_mono(n, 64);
    lemma_pow2_pos(k);
    assert(b < s * p53) by {
        vstd::arithmetic::mul::lemma_mul_is_commutative(p53 as int, s as int);
    }
    assert(b / s < p53) by {
        vstd::arithmetic::div_mod::lemma_multiply_divide_lt(b as int, s as int, p53 as int);
    }
    lemma_round_div_le(b, s, p53);
    let rq = round_div(b, s);
    assert(rq * s <= p53 * s) by {
        vstd::arithmetic::mul::lemma_mul_inequality(rq as int, p53 as int, s as int);
    }
}

fn push_tenths(s: &mut String, t: u64)
    ensures
        final(s)@ == old(s)@ + tenths_text(t as nat),
{
    push_decimal(s, t / 10);
    s.push('.');
    s.push(crate::text::digit_to_char(t % 10));
    assert(s@ =~= old(s)@ + tenths_text(t as nat)) by {
        reveal_strlit(".");
    }
}

fn scaled(b: u64, unit: u128) -> (r: u64)
    requires
        1024 <= unit <= 1024 * 1024 * 1024,
    ensures
        r == round_div(10 * as_f64(b as nat), unit as nat),
{
    let f = f64_value(b);
    let n = 10 * f;
    let t = round_div_exec(n, unit);
    proof {
        assert(n / unit <= n / 1024) by {
            vstd::arithmetic::div_mod::lemma_div_is_ordered_by_denominator(n as int, 1024, unit as int);
        }
        assert(n / 1024 < 0xffff_ffff_ffff_fff0) by (nonlinear_arith)
            requires
                n <= 10 * 0x1_0000_0000_0000_0000,
        ;
    }
    t as u64
}

/// The byte count in human units.
pub fn human_bytes(bytes: u64) -> (r: String)
    ensures
        r@ == human(bytes),
{
    let mut r = String::new();
    if bytes >= 1024 * 1024 * 1024 {
        push_tenths(&mut r, scaled(bytes, 1024 * 1024 * 1024));
        r.push('G');
    } else if bytes >= 1024 * 1024 {
        push_tenths(&mut r, scaled(bytes, 1024 * 1024));
        r.push('M');
    } else if bytes >= 1024 {
        push_tenths(&mut r, scaled(bytes, 1024));
        r.push('K');
    } else {
        push_decimal(&mut r, bytes);
        r.push('B');
    }
    proof {
        reveal_strlit("G");
        reveal_strlit("M");
        reveal_strlit("K");
        reveal_strlit("B");
    }
    assert(r@ =~= human(bytes));
    r
}

// ---------------------------------------------------------------------------
// Segments
// ---------------------------------------------------------------------------
/// The optional string as a string slice.
pub fn as_str_opt(o: &Option<String>) -> (r: Option<&str>)
    ensures
        opt_str(r) == opt_view(*o),
{
    match o {
        Some(s) => Some(s.as_str()),
        None => None,
    }
}

/// The value trimmed, when there is one and it is not blank.
pub open spec fn opt_nonblank(o: Option<Seq<char>>) -> Option<Seq<char>> {
    match o {
        Some(s) => nonblank(s),
        None => None,
    }
}

/// The value trimmed, when there is one and it is not blank.
pub fn non_empty(value: Option<&str>) -> (r: Option<String>)
    ensures
        opt_view(r) == opt_nonblank(opt_str(value)),
{
    match value {
        Some(v) => {
            let r = crate::theme::non_empty(v);
            r
        },
        None => None,
    }
}

/// The `bg=` and `fg=` attributes for the colours that are given.
pub open spec fn style_parts(bg: Option<Seq<char>>, fg: Option<Seq<char>>) -> Seq<Seq<char>> {
    let a = match opt_nonblank(bg) {
        Some(b) => seq!["bg="@ + b],
        None => seq![],
    };
    match opt_nonblank(fg) {
        Some(f) => a.push("fg="@ + f),
        None => a,
    }
}

/// `text` in tmux style markup: `#[bg=..,fg=..] text #[default]`, plain
/// text without colours, nothing for empty text.
pub open spec fn style(text: Seq<char>, bg: Option<Seq<char>>, fg: Option<Seq<char>>) -> Seq<char> {
    if text.len() == 0 {
        seq![]
    } else {
        let parts = style_parts(bg, fg);
        if parts.len() == 0 {
            text
        } else {
            "#["@ + join_with(parts, ","@) + "] "@ + text + " #[default]"@
        }
    }
}

/// Styles one segment.
pub fn style_segment(text: &str, bg: Option<&str>, fg: Option<&str>) -> (r: String)
    ensures
        r@ == style(text@, opt_str(bg), opt_str(fg)),
{
    if text.is_empty() {
        return String::new();
    }
    let mut parts: Vec<String> = Vec::new();
    if let Some(b) = non_empty(bg) {
        parts.push(concat("bg=", &b));
    }
    if let Some(f) = non_empty(fg) {
        parts.push(concat("fg=", &f));
    }
    assert(views(parts@) =~= style_parts(opt_str(bg), opt_str(fg)));
    if parts.len() == 0 {
        copy_str(text)
    } else {
        let mut r = copy_str("#[");
        let joined = join_strings(&parts, ",");
        push_all(&mut r, &joined);
        push_all(&mut r, "] ");
        push_all(&mut r, text);
        push_all(&mut r, " #[default]");
        r
    }
}

/// The battery segment text: `<symbol> <percent>%`.
pub open spec fn battery_label(percent: Option<u8>, symbol: Seq<char>) -> Option<Seq<char>> {
    match percent {
        Some(p) => Some(symbol + " "@ + dec(p as nat) + "%"@),
        None => None,
    }
}

/// The battery segment text, when the percentage is known.
pub fn render_battery_label(context: &TmuxContext, symbol: &str) -> (r: Option<String>)
    ensures
        opt_view(r) == battery_label(context.battery_percent, symbol@),
{
    match context.battery_percent {
        Some(p) => {
            let mut s = concat(symbol, " ");
            push_decimal(&mut s, p as u64);
            push_all(&mut s, "%");
            Some(s)
        },
        None => None,
    }
}

/// The memory segment text: `<symbol> <used>/<total>` in human units, when
/// both are known and the total is not zero.
pub open spec fn memory_label(used: Option<u64>, total: Option<u64>, symbol: Seq<char>) -> Option<Seq<char>> {
    match (used, total) {
        (Some(u), Some(t)) => if t == 0 {
            None
        } else {
            Some(symbol + " "@ + human(u) + "/"@ + human(t))
        },
        _ => None,
    }
}

/// The memory segment text.
pub fn render_memory_label(context: &TmuxContext, symbol: &str) -> (r: Option<String>)
    ensures
        opt_view(r) == memory_label(context.memory_used_bytes, context.memory_total_bytes, symbol@),
{
    let used = match context.memory_used_bytes {
        Some(u) => u,
        None => return None,
    };
    let total = match context.memory_total_bytes {
        Some(t) => t,
        None => return None,
    };
    if total == 0 {
        return None;
    }
    let mut s = concat(symbol, " ");
    push_all(&mut s, &human_bytes(used));
    push_all(&mut s, "/");
    push_all(&mut s, &human_bytes(total));
    Some(s)
}

/// The battery colours: the error pair up to 20%, the warning pair up to
/// 60%, the info pair above that or when unknown.
pub open spec fn battery_colors(percent: Option<u8>, tmux: TmuxPalette) -> (Option<Seq<char>>, Option<Seq<char>>) {
    match percent {
        Some(p) => if p <= 20 {
            (opt_view(tmux.segment_error_bg), opt_view(tmux.segment_error_fg))
        } else if p <= 60 {
            (opt_view(tmux.segment_warn_bg), opt_view(tmux.segment_warn_fg))
        } else {
            (opt_view(tmux.segment_info_bg), opt_view(tmux.segment_info_fg))
        },
        None => (opt_view(tmux.segment_info_bg), opt_view(tmux.segment_info_fg)),
    }
}

/// The battery segment's background and foreground colours.
pub fn battery_style(percent: Option<u8>, tmux: &TmuxPalette) -> (r: (Option<&str>, Option<&str>))
    ensures
        (opt_str(r.0), opt_str(r.1)) == battery_colors(percent, *tmux),
{
    match percent {
        Some(p) => {
            if p <= 20 {
                (as_str_opt(&tmux.segment_error_bg), as_str_opt(&tmux.segment_error_fg))
            } else if p <= 60 {
                (as_str_opt(&tmux.segment_warn_bg), as_str_opt(&tmux.segment_warn_fg))
            } else {
                (as_str_opt(&tmux.segment_info_bg), as_str_opt(&tmux.segment_info_fg))
            }
        },
        None => (as_str_opt(&tmux.segment_info_bg), as_str_opt(&tmux.segment_info_fg)),
    }
}

/// The segments that are not empty, in order.
pub open spec fn nonempty_only(segs: Seq<Seq<char>>) -> Seq<Seq<char>>
    decreases segs.len(),
{
    if segs.len() == 0 {
        seq![]
    } else {
        let rest = nonempty_only(segs.drop_last());
        if segs.last().len() > 0 {
            rest.push(segs.last())
        } else {
            rest
        }
    }
}

/// The non-empty segments, separated by single spaces.
pub fn join_segments(segments: Vec<String>) -> (r: String)
    ensures
        r@ == join_with(nonempty_only(views(segments@)), " "@),
{
    let mut kept: Vec<String> = Vec::new();
    let mut i: usize = 0;
    while i < segments.len()
        invariant
            0 <= i <= segments@.len(),
            views(kept@) == nonempty_only(views(segments@.subrange(0, i as int))),
        decreases segments@.len() - i,
    {
        let ghost pre = views(segments@.subrange(0, i + 1));
        assert(pre.drop_last() =~= views(segments@.subrange(0, i as int)));
        assert(pre.last() == segments@[i as int]@);
        if !segments[i].as_str().is_empty() {
            kept.push(copy_str(&segments[i]));
            assert(views(kept@) =~= nonempty_only(pre));
        }
        i = i + 1;
    }
    assert(segments@.subrange(0, segments@.len() as int) =~= segments@);
    join_strings(&kept, " ")
}

/// The right-side segments before empty ones are dropped: battery, memory
/// (when enabled) and time, each when known.
pub open spec fn right_segments(context: TmuxContext, config: Config, theme: Theme) -> Seq<Seq<char>> {
    let tmux = theme.tmux;
    let s0 = match battery_label(context.battery_percent, config.tmux.battery_symbol@) {
        Some(l) => {
            let (bg, fg) = battery_colors(context.battery_percent, tmux);
            seq![style(l, bg, fg)]
        },
        None => seq![],
    };
    let s1 = if config.tmux.show_memory {
        match memory_label(
            context.memory_used_bytes,
            context.memory_total_bytes,
            config.tmux.memory_symbol@,
        ) {
            Some(m) => s0.push(
                style(m, opt_view(tmux.segment_info_bg), opt_view(tmux.segment_info_fg)),
            ),
            None => s0,
        }
    } else {
        s0
    };
    match opt_nonblank(opt_view(context.time_label)) {
        Some(t) => s1.push(
            style(
                config.tmux.time_symbol@ + " "@ + t,
                opt_view(tmux.segment_time_bg),
                opt_view(tmux.segment_time_fg),
            ),
        ),
        None => s1,
    }
}

/// The right-side status text.
pub open spec fn right_status(context: TmuxContext, config: Config, theme: Theme) -> Seq<char> {
    join_with(nonempty_only(right_segments(context, config, theme)), " "@)
}

/// Renders the right-side status segment.
pub fn render_right(context: &TmuxContext, config: &Config, theme: &Theme) -> (r: String)
    ensures
        r@ == right_status(*context, *config, *theme),
{
    let mut segments: Vec<String> = Vec::new();
    let tmux = &theme.tmux;
    if let Some(battery) = render_battery_label(context, &config.tmux.battery_symbol) {
        let (bg, fg) = battery_style(context.battery_percent, tmux);
        segments.push(style_segment(&battery, bg, fg));
    }
    let ghost s0 = views(segments@);
    if config.tmux.show_memory {
        if let Some(memory) = render_memory_label(context, &config.tmux.memory_symbol) {
            segments.push(
                style_segment(
                    &memory,
                    as_str_opt(&tmux.segment_info_bg),
                    as_str_opt(&tmux.segment_info_fg),
                ),
            );
            assert(views(segments@) =~= s0.push(segments@.last()@));
        }
    }
    let ghost s1 = views(segments@);
    if let Some(time) = non_empty(as_str_opt(&context.time_label)) {
        let mut label = concat(&config.tmux.time_symbol, " ");
        push_all(&mut label, &time);
        segments.push(
            style_segment(
                &label,
                as_str_opt(&tmux.segment_time_bg),
                as_str_opt(&tmux.segment_time_fg),
            ),
        );
        assert(views(segments@) =~= s1.push(segments@.last()@));
    }
    assert(views(segments@) =~= right_segments(*context, *config, *theme));
    join_segments(segments)
}

/// Renders the requested tmux status area.
pub fn render(target: TmuxTarget, context: &TmuxContext, app_config: &Config, theme: &Theme) -> (r: String)
    ensures
        match target {
            TmuxTarget::Right => r@ == right_status(*context, *app_config, *theme),
        },
{
    match target {
        TmuxTarget::Right => render_right(context, app_config, theme),
    }
}

// ---------------------------------------------------------------------------
// Laws of styling and of the segment list
// ---------------------------------------------------------------------------
/// Text styled without colours (none given, or only blank ones) is the text
/// itself.
pub proof fn lemma_style_without_colors(text: Seq<char>, bg: Option<Seq<char>>, fg: Option<Seq<char>>)
    requires
        opt_nonblank(bg) is None,
        opt_nonblank(fg) is None,
    ensures
        style(text, bg, fg) == text,
{
    assert(style_parts(bg, fg) =~= Seq::<Seq<char>>::empty());
}

/// The right-side labels before styling: battery, memory (when enabled)
/// and time, each when known.
pub open spec fn right_labels(context: TmuxContext, config: Config) -> Seq<Seq<char>> {
    let s0 = match battery_label(context.battery_percent, config.tmux.battery_symbol@) {
        Some(l) => seq![l],
        None => seq![],
    };
    let s1 = if config.tmux.show_memory {
        match memory_label(
            context.memory_used_bytes,
            context.memory_total_bytes,
            config.tmux.memory_symbol@,
        ) {
            Some(m) => s0.push(m),
            None => s0,
        }
    } else {
        s0
    };
    match opt_nonblank(opt_view(context.time_label)) {
        Some(t) => s1.push(config.tmux.time_symbol@ + " "@ + t),
        None => s1,
    }
}

/// The tmux palette sets no colour at all.
pub open spec fn colorless(t: TmuxPalette) -> bool {
    &&& t.segment_info_bg is None
    &&& t.segment_info_fg is None
    &&& t.segment_warn_bg is None
    &&& t.segment_warn_fg is None
    &&& t.segment_error_bg is None
    &&& t.segment_error_fg is None
    &&& t.segment_time_bg is None
    &&& t.segment_time_fg is None
}

/// A theme without tmux colours renders the right side as the plain labels.
pub proof fn lemma_colorless_theme_unstyled(context: TmuxContext, config: Config, theme: Theme)
    requires
        colorless(theme.tmux),
    ensures
        right_status(context, config, theme) == join_with(
            nonempty_only(right_labels(context, config)),
            " "@,
        ),
{
    let segs = right_segments(context, config, theme);
    let labels = right_labels(context, config);
    assert forall|t: Seq<char>| style(t, None, None) == t by {
        lemma_style_without_colors(t, None, None);
    }
    assert(segs =~= labels);
}

/// Empty segments are omitted: every segment that is kept is non-empty, none
/// is added, and the non-empty ones keep their order.
pub proof fn lemma_kept_segments_nonempty(segs: Seq<Seq<char>>)
    ensures
        forall|i: int|
            0 <= i < nonempty_only(segs).len() ==> (#[trigger] nonempty_only(segs)[i]).len() > 0,
        nonempty_only(segs).len() <= segs.len(),
        (forall|i: int| 0 <= i < segs.len() ==> (#[trigger] segs[i]).len() > 0)
            ==> nonempty_only(segs) == segs,
    decreases segs.len(),
{
    if segs.len() > 0 {
        lemma_kept_segments_nonempty(segs.drop_last());
        let rest = nonempty_only(segs.drop_last());
        if (forall|i: int| 0 <= i < segs.len() ==> (#[trigger] segs[i]).len() > 0) {
            assert(forall|i: int|
                0 <= i < segs.drop_last().len() ==> (#[trigger] segs.drop_last()[i]).len() > 0) by {
                assert forall|i: int| 0 <= i < segs.drop_last().len() implies (
                #[trigger] segs.drop_last()[i]).len() > 0 by {
                    assert(segs.drop_last()[i] == segs[i]);
                }
            }
            assert(segs[segs.len() - 1].len() > 0);
            assert(rest.push(segs.last()) =~= segs);
        }
    }
}

/// Missing data is omitted: with nothing known about the host the right
/// side is empty.
pub proof fn lemma_nothing_known_renders_nothing(config: Config, theme: Theme)
    ensures
        right_status(
            TmuxContext {
                battery_percent: None,
                memory_used_bytes: None,
                memory_total_bytes: None,
                time_label: None,
            },
            config,
            theme,
        ) == Seq::<char>::empty(),
{
    let context = TmuxContext {
        battery_percent: None,
        memory_used_bytes: None,
        memory_total_bytes: None,
        time_label: None,
    };
    assert(right_segments(context, config, theme) =~= Seq::<Seq<char>>::empty());
    assert(nonempty_only(Seq::<Seq<char>>::empty()) =~= Seq::<Seq<char>>::empty());
}

/// The number of battery segments: one when the battery level is known.
pub open spec fn battery_segments(context: TmuxContext, config: Config) -> int {
    if battery_label(context.battery_percent, config.tmux.battery_symbol@) is Some {
        1
    } else {
        0
    }
}

/// The battery level decides only the battery segment: the memory segment
/// (when shown) always follows it in the info colours
/// (`tmux.segment_info_bg`, `tmux.segment_info_fg`), and two contexts that
/// differ only in their battery level give the same segments after it.
pub proof fn lemma_battery_decides_only_its_segment(
    c1: TmuxContext,
    c2: TmuxContext,
    config: Config,
    theme: Theme,
)
    requires
        c1.memory_used_bytes == c2.memory_used_bytes,
        c1.memory_total_bytes == c2.memory_total_bytes,
        c1.time_label == c2.time_label,
    ensures
        ({
            let k1 = battery_segments(c1, config);
            let k2 = battery_segments(c2, config);
            let s1 = right_segments(c1, config, theme);
            let s2 = right_segments(c2, config, theme);
            &&& k1 <= s1.len() && k2 <= s2.len()
            &&& s1.subrange(k1, s1.len() as int) == s2.subrange(k2, s2.len() as int)
            &&& config.tmux.show_memory ==> (memory_label(
                c1.memory_used_bytes,
                c1.memory_total_bytes,
                config.tmux.memory_symbol@,
            ) matches Some(m) ==> s1.len() > k1 && s1[k1] == style(
                m,
                opt_view(theme.tmux.segment_info_bg),
                opt_view(theme.tmux.segment_info_fg),
            ))
        }),
{
    let k1 = battery_segments(c1, config);
    let k2 = battery_segments(c2, config);
    let s1 = right_segments(c1, config, theme);
    let s2 = right_segments(c2, config, theme);
    assert(s1.subrange(k1, s1.len() as int) =~= s2.subrange(k2, s2.len() as int));
}

} // verus!
