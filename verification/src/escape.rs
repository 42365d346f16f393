//! The escape sequences a terminal screen follows itself: when a program
//! switches to the alternate screen and back, sets a scroll region or
//! clears the whole screen.

use vstd::prelude::*;

verus! {

broadcast use vstd::std_specs::vec::group_vec_axioms;

/// Which screen a program draws on.
#[derive(Debug, Clone, Copy, PartialEq, Eq, Structural)]
pub enum ScreenMode {
    Normal,
    Alternate,
}

impl Default for ScreenMode {
    fn default() -> (m: ScreenMode)
        ensures
            m == ScreenMode::Normal,
    {
        ScreenMode::Normal
    }
}

/// Where in an escape sequence the output stands.
#[derive(Debug, Clone, PartialEq, Eq)]
pub enum EscapeSequenceState {
    Ground,
    Escape,
    Csi(Vec<u8>),
}

/// The mathematical form of an escape state.
pub enum EscModel {
    Ground,
    Escape,
    Csi(Seq<u8>),
}

impl View for EscapeSequenceState {
    type V = EscModel;

    open spec fn view(&self) -> EscModel {
        match self {
            EscapeSequenceState::Ground => EscModel::Ground,
            EscapeSequenceState::Escape => EscModel::Escape,
            EscapeSequenceState::Csi(p) => EscModel::Csi(p@),
        }
    }
}

/// What one byte ends: leaving the alternate screen, or a repaint of the
/// whole alternate screen.
#[derive(Debug, Clone, Copy, PartialEq, Eq, Structural)]
pub struct EscapeSequenceAction {
    pub leave_alternate_screen: bool,
    pub alternate_repaint_boundary: bool,
}

/// A byte that ends a control sequence.
pub open spec fn csi_final(b: u8) -> bool {
    0x40 <= b <= 0x7e
}

/// Where the first `;` of `s` stands, or the length of `s`.
pub open spec fn first_semi(s: Seq<u8>) -> int
    decreases s.len(),
{
    if s.len() == 0 {
        0
    } else if s[0] == 0x3b {
        0
    } else {
        1 + first_semi(s.drop_first())
    }
}

/// `s[i..j]` is one of the `;`-separated parts of `s`.
pub open spec fn is_piece(s: Seq<u8>, i: int, j: int) -> bool {
    &&& 0 <= i <= j <= s.len()
    &&& (i == 0 || s[i - 1] == 0x3b)
    &&& (j == s.len() || s[j] == 0x3b)
    &&& forall|k: int| i <= k < j ==> s[k] != 0x3b
}

/// One of the parts of `s` names an alternate screen mode: 47, 1047 or 1049.
pub open spec fn names_alternate_screen(s: Seq<u8>) -> bool {
    exists|i: int, j: int|
        #![trigger s.subrange(i, j)]
        is_piece(s, i, j) && (s.subrange(i, j) == seq![0x34u8, 0x37] || s.subrange(i, j) == seq![
            0x31u8,
            0x30,
            0x34,
            0x37,
        ] || s.subrange(i, j) == seq![0x31u8, 0x30, 0x34, 0x39])
}

/// The value of a string of decimal digits.
pub open spec fn decimal(d: Seq<u8>) -> int
    decreases d.len(),
{
    if d.len() == 0 {
        0
    } else {
        decimal(d.drop_last()) * 10 + (d.last() - 0x30)
    }
}

/// Every byte is a decimal digit.
pub open spec fn all_digits(d: Seq<u8>) -> bool {
    forall|k: int| 0 <= k < d.len() ==> 0x30 <= #[trigger] d[k] <= 0x39
}

/// A numeric parameter of a control sequence: an optional `+`, then
/// decimal digits whose value fits in sixteen bits.
pub open spec fn param_value(p: Seq<u8>) -> Option<u16> {
    let d = if p.len() > 0 && p[0] == 0x2b {
        p.drop_first()
    } else {
        p
    };
    if d.len() == 0 || !all_digits(d) || decimal(d) > 65535 {
        None
    } else {
        Some(decimal(d) as u16)
    }
}

/// A scroll-region sequence sets a region other than the whole screen of
/// `rows` rows: the first part is the top row (one when missing), the second
/// the bottom row (the last when missing).
pub open spec fn custom_region(params: Seq<u8>, rows: u16) -> bool {
    if params.len() == 0 {
        false
    } else {
        let k = first_semi(params);
        let top = match param_value(params.take(k)) {
            Some(v) => v,
            None => 1u16,
        };
        let bottom = if k < params.len() {
            let rest = params.skip(k + 1);
            match param_value(rest.take(first_semi(rest))) {
                Some(v) => v,
                None => rows,
            }
        } else {
            rows
        };
        !(top == 1 && bottom == rows)
    }
}

/// The screen after a control sequence with `params` and final byte `fin`:
/// `?47`, `?1047` or `?1049` with `h` enters the alternate screen, with `l`
/// leaves it.
pub open spec fn mode_after_csi(mode: ScreenMode, params: Seq<u8>, fin: u8) -> ScreenMode {
    if (fin == 0x68 || fin == 0x6c) && params.len() > 0 && params[0] == 0x3f && names_alternate_screen(
        params.drop_first(),
    ) {
        if fin == 0x68 {
            ScreenMode::Alternate
        } else {
            ScreenMode::Normal
        }
    } else {
        mode
    }
}

/// The parameters of an erase sequence that clear the whole screen.
pub open spec fn clears_whole_screen(params: Seq<u8>) -> bool {
    params.len() == 0 || params == seq![0x32u8] || params == seq![0x33u8]
}

/// The escape state and screen after one byte.
pub open spec fn esc_next(state: EscModel, mode: ScreenMode, byte: u8) -> (EscModel, ScreenMode) {
    match state {
        EscModel::Ground => (if byte == 0x1b {
            EscModel::Escape
        } else {
            EscModel::Ground
        }, mode),
        EscModel::Escape => (if byte == 0x5b {
            EscModel::Csi(seq![])
        } else if byte == 0x1b {
            EscModel::Escape
        } else {
            EscModel::Ground
        }, mode),
        EscModel::Csi(params) => if csi_final(byte) {
            (EscModel::Ground, mode_after_csi(mode, params, byte))
        } else if byte == 0x1b {
            (EscModel::Escape, mode)
        } else {
            (EscModel::Csi(params.push(byte)), mode)
        },
    }
}

/// The escape state and screen after a run of bytes.
pub open spec fn esc_run(state: EscModel, mode: ScreenMode, bytes: Seq<u8>) -> (EscModel, ScreenMode)
    decreases bytes.len(),
{
    if bytes.len() == 0 {
        (state, mode)
    } else {
        let n = esc_next(state, mode, bytes[0]);
        esc_run(n.0, n.1, bytes.drop_first())
    }
}

/// Output handed over in two chunks leaves the escape state and the screen
/// mode as the same output handed over at once.
pub proof fn law_esc_run_chunks(state: EscModel, mode: ScreenMode, a: Seq<u8>, b: Seq<u8>)
    ensures
        esc_run(state, mode, a + b) == esc_run(esc_run(state, mode, a).0, esc_run(state, mode, a).1, b),
    decreases a.len(),
{
    if a.len() > 0 {
        let n = esc_next(state, mode, a[0]);
        assert((a + b).drop_first() =~= a.drop_first() + b);
        assert((a + b)[0] == a[0]);
        law_esc_run_chunks(n.0, n.1, a.drop_first(), b);
    } else {
        assert(a + b =~= b);
    }
}

/// The scroll-region flag after one byte on a screen of `rows` rows.
pub open spec fn region_next(state: EscModel, region: bool, rows: u16, byte: u8) -> bool {
    match state {
        EscModel::Csi(params) => if csi_final(byte) && byte == 0x72 {
            custom_region(params, rows)
        } else {
            region
        },
        _ => region,
    }
}

/// What the byte ends.
pub open spec fn action_of(state: EscModel, mode: ScreenMode, byte: u8) -> EscapeSequenceAction {
    match state {
        EscModel::Csi(params) => if csi_final(byte) {
            let m2 = mode_after_csi(mode, params, byte);
            EscapeSequenceAction {
                leave_alternate_screen: mode == ScreenMode::Alternate && m2 == ScreenMode::Normal,
                alternate_repaint_boundary: mode == ScreenMode::Alternate && byte == 0x4a
                    && clears_whole_screen(params),
            }
        } else {
            EscapeSequenceAction { leave_alternate_screen: false, alternate_repaint_boundary: false }
        },
        _ => EscapeSequenceAction { leave_alternate_screen: false, alternate_repaint_boundary: false },
    }
}

pub fn is_csi_final_byte(byte: u8) -> (r: bool)
    ensures
        r == csi_final(byte),
{
    0x40 <= byte && byte <= 0x7e
}

/// Where the first `;` of `s[from..]` stands, counted from `from`, or the
/// length of the rest.
fn first_semi_from(s: &Vec<u8>, from: usize) -> (r: usize)
    requires
        from <= s@.len(),
    ensures
        r == first_semi(s@.skip(from as int)),
        from + r <= s@.len(),
{
    let mut i = from;
    while i < s.len() && s[i] != 0x3b
        invariant
            from <= i <= s@.len(),
            first_semi(s@.skip(from as int)) == (i - from) + first_semi(s@.skip(i as int)),
        decreases s@.len() - i,
    {
        proof {
            assert(s@.skip(i as int).drop_first() =~= s@.skip(i + 1));
        }
        i = i + 1;
    }
    proof {
        if i == s.len() {
            assert(s@.skip(i as int).len() == 0);
        } else {
            assert(s@.skip(i as int)[0] == 0x3b);
        }
    }
    i - from
}

proof fn lemma_first_semi(s: Seq<u8>)
    ensures
        0 <= first_semi(s) <= s.len(),
        first_semi(s) < s.len() ==> s[first_semi(s)] == 0x3b,
        forall|k: int| 0 <= k < first_semi(s) ==> s[k] != 0x3b,
    decreases s.len(),
{
    if s.len() > 0 && s[0] != 0x3b {
        lemma_first_semi(s.drop_first());
        assert forall|k: int| 0 <= k < first_semi(s) implies s[k] != 0x3b by {
            if k > 0 {
                assert(s[k] == s.drop_first()[k - 1]);
            }
        }
    }
}

proof fn lemma_decimal_monotone(d: Seq<u8>, i: int)
    requires
        all_digits(d),
        0 <= i <= d.len(),
    ensures
        decimal(d.take(i)) <= decimal(d),
        0 <= decimal(d.take(i)),
    decreases d.len() - i,
{
    if i < d.len() {
        lemma_decimal_monotone(d, i + 1);
        assert(d.take(i + 1).drop_last() =~= d.take(i));
        assert(d.take(i + 1).last() == d[i]);
        assert(0x30 <= d[i] <= 0x39);
    } else {
        assert(d.take(i) =~= d);
    }
    lemma_decimal_nonneg(d.take(i));
}

proof fn lemma_decimal_nonneg(d: Seq<u8>)
    requires
        all_digits(d),
    ensures
        decimal(d) >= 0,
    decreases d.len(),
{
    if d.len() > 0 {
        assert forall|k: int| 0 <= k < d.drop_last().len() implies 0x30 <= #[trigger] d.drop_last()[k] <= 0x39 by {
            assert(d.drop_last()[k] == d[k]);
        }
        lemma_decimal_nonneg(d.drop_last());
        assert(0x30 <= d[d.len() - 1] <= 0x39);
    }
}

/// The numeric parameter `s[from..to]`, if it is one.
#[verifier::loop_isolation(false)]
pub fn parse_csi_param(s: &Vec<u8>, from: usize, to: usize) -> (r: Option<u16>)
    requires
        from <= to <= s@.len(),
    ensures
        r == param_value(s@.subrange(from as int, to as int)),
{
    let ghost p = s@.subrange(from as int, to as int);
    if from == to {
        return None;
    }
    let start = if s[from] == 0x2b { from + 1 } else { from };
    let ghost d = s@.subrange(start as int, to as int);
    proof {
        if s[from as int] == 0x2b {
            assert(p.drop_first() =~= d);
        } else {
            assert(p =~= d);
        }
    }
    if start == to {
        return None;
    }
    let mut value: u32 = 0;
    let mut i = start;
    while i < to
        invariant
            start <= i <= to,
            to <= s@.len(),
            d == s@.subrange(start as int, to as int),
            all_digits(d.take(i - start)),
            value == decimal(d.take(i - start)),
            value <= 65535,
        decreases to - i,
    {
        let b = s[i];
        proof {
            assert(d[i - start] == b);
            assert(d.take(i - start + 1).drop_last() =~= d.take(i - start));
            assert(d.take(i - start + 1).last() == b);
        }
        if b < 0x30 || b > 0x39 {
            proof {
                assert(!all_digits(d));
            }
            return None;
        }
        value = value * 10 + (b - 0x30) as u32;
        proof {
            assert forall|k: int| 0 <= k < d.take(i - start + 1).len() implies 0x30 <= #[trigger] d.take(i - start + 1)[k] <= 0x39 by {
                if k < i - start {
                    assert(d.take(i - start + 1)[k] == d.take(i - start)[k]);
                }
            }
        }
        if value > 65535 {
            proof {
                if all_digits(d) {
                    lemma_decimal_monotone(d, i - start + 1);
                }
            }
            return None;
        }
        i = i + 1;
    }
    proof {
        assert(d.take(i - start) =~= d);
    }
    Some(value as u16)
}

/// Whether the parameters of a scroll-region sequence set a region other
/// than the whole screen.
pub fn is_custom_scroll_region(params: &Vec<u8>, rows: u16) -> (r: bool)
    ensures
        r == custom_region(params@, rows),
{
    if params.len() == 0 {
        return false;
    }
    let k = first_semi_from(params, 0);
    proof {
        assert(params@.skip(0) =~= params@);
        assert(params@.subrange(0, k as int) =~= params@.take(k as int));
    }
    let top = match parse_csi_param(params, 0, k) {
        Some(v) => v,
        None => 1,
    };
    let bottom = if k < params.len() {
        let k2 = first_semi_from(params, k + 1);
        proof {
            let rest = params@.skip(k + 1);
            assert(params@.subrange(k + 1, (k + 1 + k2) as int) =~= rest.take(first_semi(rest)));
        }
        match parse_csi_param(params, k + 1, k + 1 + k2) {
            Some(v) => v,
            None => rows,
        }
    } else {
        rows
    };
    !(top == 1 && bottom == rows)
}

/// Whether `s[from..]` has a part that names an alternate screen mode.
fn has_alternate_screen_piece(s: &Vec<u8>) -> (r: bool)
    requires
        s@.len() >= 1,
    ensures
        r == names_alternate_screen(s@.drop_first()),
{
    let ghost t = s@.drop_first();
    let n = s.len();
    let mut i: usize = 1;
    proof {
        assert(s@.skip(1) =~= t);
    }
    loop
        invariant
            1 <= i <= s@.len(),
            n == s@.len(),
            t == s@.drop_first(),
            i == 1 || s@[i - 1] == 0x3b,
            forall|a: int, b: int|
                #![trigger t.subrange(a, b)]
                is_piece(t, a, b) && a < i - 1 ==> !(t.subrange(a, b) == seq![0x34u8, 0x37] || t.subrange(a, b) == seq![0x31u8, 0x30, 0x34, 0x37]
                    || t.subrange(a, b) == seq![0x31u8, 0x30, 0x34, 0x39]),
        decreases s@.len() - i,
    {
        let k = first_semi_from(s, i);
        assert(i + k <= n);
        let ghost a = i - 1;
        let ghost b = i - 1 + k;
        proof {
            lemma_first_semi(s@.skip(i as int));
            assert forall|m: int| a <= m < b implies t[m] != 0x3b by {
                assert(t[m] == s@.skip(i as int)[m - a]);
            }
            if b < t.len() {
                assert(t[b] == s@.skip(i as int)[k as int]);
            }
            if a > 0 {
                assert(t[a - 1] == s@[i - 1]);
            }
            assert(is_piece(t, a, b));
        }
        let hit = (k == 2 && s[i] == 0x34 && s[i + 1] == 0x37) || (k == 4 && s[i] == 0x31 && s[i + 1] == 0x30 && s[i + 2] == 0x34 && (s[i + 3] == 0x37 || s[i + 3] == 0x39));
        proof {
            let piece = t.subrange(a, b);
            if k == 2 {
                assert(piece[0] == s@[i as int] && piece[1] == s@[i + 1]);
            }
            if k == 4 {
                assert(piece[0] == s@[i as int] && piece[1] == s@[i + 1] && piece[2] == s@[i + 2] && piece[3] == s@[i + 3]);
            }
            if hit {
                if k == 2 {
                    assert(piece =~= seq![0x34u8, 0x37]);
                } else if s@[i + 3] == 0x37 {
                    assert(piece =~= seq![0x31u8, 0x30, 0x34, 0x37]);
                } else {
                    assert(piece =~= seq![0x31u8, 0x30, 0x34, 0x39]);
                }
            } else {
                if piece == seq![0x34u8, 0x37] {
                    assert(piece.len() == 2);
                    assert(seq![0x34u8, 0x37][0] == 0x34 && seq![0x34u8, 0x37][1] == 0x37);
                    assert(false);
                }
                if piece == seq![0x31u8, 0x30, 0x34, 0x37] {
                    assert(piece.len() == 4);
                    assert(seq![0x31u8, 0x30, 0x34, 0x37][0] == 0x31 && seq![0x31u8, 0x30, 0x34, 0x37][1] == 0x30);
                    assert(seq![0x31u8, 0x30, 0x34, 0x37][2] == 0x34 && seq![0x31u8, 0x30, 0x34, 0x37][3] == 0x37);
                    assert(false);
                }
                if piece == seq![0x31u8, 0x30, 0x34, 0x39] {
                    assert(piece.len() == 4);
                    assert(seq![0x31u8, 0x30, 0x34, 0x39][0] == 0x31 && seq![0x31u8, 0x30, 0x34, 0x39][1] == 0x30);
                    assert(seq![0x31u8, 0x30, 0x34, 0x39][2] == 0x34 && seq![0x31u8, 0x30, 0x34, 0x39][3] == 0x39);
                    assert(false);
                }
            }
        }
        if hit {
            return true;
        }
        if i + k >= n {
            proof {
                assert forall|a2: int, b2: int|
                    #![trigger t.subrange(a2, b2)]
                    is_piece(t, a2, b2) implies !(t.subrange(a2, b2) == seq![0x34u8, 0x37] || t.subrange(a2, b2) == seq![0x31u8, 0x30, 0x34, 0x37]
                        || t.subrange(a2, b2) == seq![0x31u8, 0x30, 0x34, 0x39]) by {
                    if a2 > a {
                        assert(t[a2 - 1] == 0x3b);
                        assert(false);
                    } else if a2 == a {
                        if b2 < b {
                            assert(t[b2] != 0x3b);
                        } else if b2 > b {
                            assert(false);
                        }
                    }
                }
            }
            return false;
        }
        proof {
            assert forall|a2: int, b2: int|
                #![trigger t.subrange(a2, b2)]
                is_piece(t, a2, b2) && a2 < b + 1 implies !(t.subrange(a2, b2) == seq![0x34u8, 0x37] || t.subrange(a2, b2) == seq![0x31u8, 0x30, 0x34, 0x37]
                    || t.subrange(a2, b2) == seq![0x31u8, 0x30, 0x34, 0x39]) by {
                if a2 > a && a2 < b + 1 {
                    assert(t[a2 - 1] != 0x3b);
                    assert(false);
                } else if a2 == a {
                    if b2 < b {
                        assert(t[b2] != 0x3b);
                    } else if b2 > b {
                        assert(t[b] == 0x3b);
                    }
                }
            }
            assert(s@[(i + k) as int] == 0x3b);
        }
        i = i + k + 1;
    }
}

/// The screen after a control sequence with `params` and final byte `fin`.
pub fn update_screen_mode_from_csi(mode: ScreenMode, params: &Vec<u8>, fin: u8) -> (r: ScreenMode)
    ensures
        r == mode_after_csi(mode, params@, fin),
{
    if (fin == 0x68 || fin == 0x6c) && params.len() > 0 && params[0] == 0x3f && has_alternate_screen_piece(params) {
        if fin == 0x68 {
            ScreenMode::Alternate
        } else {
            ScreenMode::Normal
        }
    } else {
        mode
    }
}

/// Whether erase parameters clear the whole screen.
pub fn clears_entire_screen(params: &Vec<u8>) -> (r: bool)
    ensures
        r == clears_whole_screen(params@),
{
    let r = params.len() == 0 || (params.len() == 1 && (params[0] == 0x32 || params[0] == 0x33));
    proof {
        if params@.len() == 1 && params@[0] == 0x32 {
            assert(params@ =~= seq![0x32u8]);
        }
        if params@.len() == 1 && params@[0] == 0x33 {
            assert(params@ =~= seq![0x33u8]);
        }
        if params@ == seq![0x32u8] {
            assert(params@.len() == 1 && params@[0] == 0x32);
        }
        if params@ == seq![0x33u8] {
            assert(params@.len() == 1 && params@[0] == 0x33);
        }
    }
    r
}

/// Follows one byte: the new escape state, screen and scroll-region flag,
/// and what the byte ends.
pub fn track_escape_byte(
    state: &mut EscapeSequenceState,
    mode: &mut ScreenMode,
    region: &mut bool,
    rows: u16,
    byte: u8,
) -> (action: EscapeSequenceAction)
    ensures
        (final(state)@, *final(mode)) == esc_next(old(state)@, *old(mode), byte),
        *final(region) == region_next(old(state)@, *old(region), rows, byte),
        action == action_of(old(state)@, *old(mode), byte),
{
    let mut action = EscapeSequenceAction { leave_alternate_screen: false, alternate_repaint_boundary: false };
    let mut current = EscapeSequenceState::Ground;
    std::mem::swap(&mut current, state);
    match current {
        EscapeSequenceState::Ground => {
            if byte == 0x1b {
                *state = EscapeSequenceState::Escape;
            }
        },
        EscapeSequenceState::Escape => {
            if byte == 0x5b {
                *state = EscapeSequenceState::Csi(Vec::new());
                proof {
                    assert(state@ == EscModel::Csi(seq![]));
                }
            } else if byte == 0x1b {
                *state = EscapeSequenceState::Escape;
            }
        },
        EscapeSequenceState::Csi(params) => {
            if is_csi_final_byte(byte) {
                let previous = *mode;
                *mode = update_screen_mode_from_csi(*mode, &params, byte);
                if byte == 0x72 {
                    *region = is_custom_scroll_region(&params, rows);
                }
                action.leave_alternate_screen = previous == ScreenMode::Alternate && *mode == ScreenMode::Normal;
                action.alternate_repaint_boundary = previous == ScreenMode::Alternate && byte == 0x4a
                    && clears_entire_screen(&params);
            } else if byte == 0x1b {
                *state = EscapeSequenceState::Escape;
            } else {
                let mut params = params;
                params.push(byte);
                *state = EscapeSequenceState::Csi(params);
            }
        },
    }
    action
}

} // verus!
