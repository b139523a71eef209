use vstd::prelude::*;
use vstd::string::StringSliceAdditionalSpecFns;
use vstd::string::StringExecFns;
use crate::board::Board;
use crate::types::{Move, PieceKind, UndoInfo};
use crate::engine::traits::SearchConfig;
use crate::fen::{all_digits, digits_value, fen_board, fen_fields};
use crate::start::start_board;
use crate::make_move::made;
use crate::perft::legal_moves;

verus! {

/// The bytes of `startpos`.
pub const STARTPOS: [u8; 8] = [115, 116, 97, 114, 116, 112, 111, 115];
/// The bytes of `fen`.
pub const FEN: [u8; 3] = [102, 101, 110];
/// The bytes of `moves`.
pub const MOVES: [u8; 5] = [109, 111, 118, 101, 115];
/// The bytes of `wtime`.
pub const WTIME: [u8; 5] = [119, 116, 105, 109, 101];
/// The bytes of `btime`.
pub const BTIME: [u8; 5] = [98, 116, 105, 109, 101];
/// The bytes of `winc`.
pub const WINC: [u8; 4] = [119, 105, 110, 99];
/// The bytes of `binc`.
pub const BINC: [u8; 4] = [98, 105, 110, 99];
/// The bytes of `movestogo`.
pub const MOVESTOGO: [u8; 9] = [109, 111, 118, 101, 115, 116, 111, 103, 111];
/// The bytes of `depth`.
pub const DEPTH: [u8; 5] = [100, 101, 112, 116, 104];
/// The bytes of `nodes`.
pub const NODES: [u8; 5] = [110, 111, 100, 101, 115];
/// The bytes of `movetime`.
pub const MOVETIME: [u8; 8] = [109, 111, 118, 101, 116, 105, 109, 101];
/// The bytes of `infinite`.
pub const INFINITE: [u8; 8] = [105, 110, 102, 105, 110, 105, 116, 101];

/// The number written in `s`, as `str::parse` reads an unsigned integer:
/// an optional `+` and at least one decimal digit, the value at most
/// `max`.
pub open spec fn unsigned_of(s: Seq<u8>, max: int) -> Option<int> {
    let start: int = if s.len() > 0 && s[0] == 43 {
        1
    } else {
        0
    };
    if s.len() > start && all_digits(s, start, s.len() as int) && digits_value(s, start, s.len() as int) <= max {
        Some(digits_value(s, start, s.len() as int))
    } else {
        None
    }
}

/// `unsigned_of` as a 64-bit number.
pub open spec fn u64_of(s: Seq<u8>) -> Option<u64> {
    match unsigned_of(s, u64::MAX as int) {
        Some(v) => Some(v as u64),
        None => None,
    }
}

/// `unsigned_of` as a 32-bit number.
pub open spec fn u32_of(s: Seq<u8>) -> Option<u32> {
    match unsigned_of(s, u32::MAX as int) {
        Some(v) => Some(v as u32),
        None => None,
    }
}

/// Digit values are not negative.
proof fn lemma_digits_nonneg(s: Seq<u8>, i: int, j: int)
    requires
        all_digits(s, i, j),
    ensures
        digits_value(s, i, j) >= 0,
    decreases j - i,
{
    if j > i {
        lemma_digits_nonneg(s, i, j - 1);
    }
}

/// A number read is between 0 and the maximum.
proof fn lemma_unsigned_range(s: Seq<u8>, max: int)
    ensures
        unsigned_of(s, max) matches Some(v) ==> 0 <= v <= max,
{
    let start: int = if s.len() > 0 && s[0] == 43 {
        1
    } else {
        0
    };
    if s.len() > start && all_digits(s, start, s.len() as int) {
        lemma_digits_nonneg(s, start, s.len() as int);
    }
}

/// Reads an unsigned number of at most `max` from `s`.
fn parse_unsigned(s: &[u8], max: u64) -> (r: Option<u64>)
    ensures
        r == (match unsigned_of(s@, max as int) {
            Some(v) => Some(v as u64),
            None => None::<u64>,
        }),
{
    let start: usize = if s.len() > 0 && s[0] == 43 {
        1
    } else {
        0
    };
    if s.len() <= start {
        return None;
    }
    let mut v: u64 = 0;
    let mut over = false;
    let mut k = start;
    while k < s.len()
        invariant
            start <= k <= s.len(),
            start == (if s@.len() > 0 && s@[0] == 43 {
                1int
            } else {
                0int
            }),
            all_digits(s@, start as int, k as int),
            !over ==> v == digits_value(s@, start as int, k as int) && v <= max,
            over ==> digits_value(s@, start as int, k as int) > max,
        decreases s.len() - k,
    {
        let c = s[k];
        if !(48u8 <= c && c <= 57u8) {
            proof {
                assert(!all_digits(s@, start as int, s@.len() as int));
            }
            return None;
        }
        let d = (c - 48) as u64;
        proof {
            lemma_digits_nonneg(s@, start as int, k as int);
        }
        if !over {
            if d > max || v > (max - d) / 10 {
                proof {
                    if d <= max {
                        assert(v * 10 + d > max) by (nonlinear_arith)
                            requires
                                v > (max - d) / 10,
                                d <= max,
                        ;
                    }
                }
                over = true;
            } else {
                assert(v * 10 + d <= max) by (nonlinear_arith)
                    requires
                        v <= (max - d) / 10,
                        d <= max,
                ;
                v = v * 10 + d;
            }
        }
        k = k + 1;
    }
    if over {
        None
    } else {
        Some(v)
    }
}

/// The bytes of `t` are those of `w`.
fn token_is(t: &str, w: &[u8]) -> (r: bool)
    ensures
        r == (t.spec_bytes() == w@),
{
    let b = t.as_bytes();
    if b.len() != w.len() {
        return false;
    }
    let mut i: usize = 0;
    while i < b.len()
        invariant
            b@ == t.spec_bytes(),
            b.len() == w.len(),
            i <= b.len(),
            forall|j: int| 0 <= j < i ==> b@[j] == w@[j],
        decreases b.len() - i,
    {
        if b[i] != w[i] {
            return false;
        }
        i = i + 1;
    }
    assert(b@ =~= w@);
    true
}

/// The bytes of each token.
pub open spec fn token_bytes(tokens: Seq<&str>) -> Seq<Seq<u8>> {
    tokens.map_values(|t: &str| t.spec_bytes())
}

/// The search limits a `go` command sets, reading its tokens from `i` on
/// into `c`: `wtime`, `btime`, `winc`, `binc`, `movestogo`, `nodes` and
/// `movetime` take the next token as a number (none when it is not one),
/// `depth` sets the depth when the next token is a number up to 255,
/// `infinite` sets infinite search; anything else is skipped.
pub open spec fn go_from(t: Seq<Seq<u8>>, i: int, c: SearchConfig) -> SearchConfig
    decreases t.len() - i,
{
    if i < 0 || i >= t.len() {
        c
    } else {
        let has = i + 1 < t.len();
        let w = t[i];
        if has && w == WTIME@ {
            go_from(t, i + 2, SearchConfig { wtime: u64_of(t[i + 1]), ..c })
        } else if has && w == BTIME@ {
            go_from(t, i + 2, SearchConfig { btime: u64_of(t[i + 1]), ..c })
        } else if has && w == WINC@ {
            go_from(t, i + 2, SearchConfig { winc: u64_of(t[i + 1]), ..c })
        } else if has && w == BINC@ {
            go_from(t, i + 2, SearchConfig { binc: u64_of(t[i + 1]), ..c })
        } else if has && w == MOVESTOGO@ {
            go_from(t, i + 2, SearchConfig { movestogo: u32_of(t[i + 1]), ..c })
        } else if has && w == DEPTH@ {
            go_from(
                t,
                i + 2,
                match unsigned_of(t[i + 1], 255) {
                    Some(d) => SearchConfig { max_depth: d as u8, ..c },
                    None => c,
                },
            )
        } else if has && w == NODES@ {
            go_from(t, i + 2, SearchConfig { nodes_limit: u64_of(t[i + 1]), ..c })
        } else if has && w == MOVETIME@ {
            go_from(t, i + 2, SearchConfig { movetime: u64_of(t[i + 1]), ..c })
        } else if w == INFINITE@ {
            go_from(t, i + 1, SearchConfig { infinite: true, ..c })
        } else {
            go_from(t, i + 1, c)
        }
    }
}

/// The default search limits: depth 64, nothing else.
pub open spec fn default_config() -> SearchConfig {
    SearchConfig {
        max_depth: 64,
        wtime: None,
        btime: None,
        winc: None,
        binc: None,
        movestogo: None,
        movetime: None,
        infinite: false,
        nodes_limit: None,
    }
}

/// The search limits of the arguments of a `go` command.
pub fn parse_go(tokens: &[&str]) -> (config: SearchConfig)
    ensures
        config == go_from(token_bytes(tokens@), 0, default_config()),
{
    let ghost t = token_bytes(tokens@);
    let mut config = SearchConfig {
        max_depth: 64,
        wtime: None,
        btime: None,
        winc: None,
        binc: None,
        movestogo: None,
        movetime: None,
        infinite: false,
        nodes_limit: None,
    };
    let mut i: usize = 0;
    while i < tokens.len()
        invariant
            t == token_bytes(tokens@),
            t.len() == tokens@.len(),
            i <= tokens.len() + 1,
            go_from(t, 0, default_config()) == go_from(t, i as int, config),
        decreases tokens.len() + 1 - i,
    {
        let w = tokens[i];
        let has = i + 1 < tokens.len();
        proof {
            assert(t[i as int] == w.spec_bytes());
            if has {
                assert(t[i + 1] == tokens@[i + 1].spec_bytes());
                lemma_unsigned_range(t[i + 1], u32::MAX as int);
                lemma_unsigned_range(t[i + 1], 255);
                lemma_unsigned_range(t[i + 1], u64::MAX as int);
            }
        }
        let ghost c0 = config;
        let ghost i0 = i as int;
        if has && token_is(w, &WTIME) {
            config.wtime = parse_unsigned(tokens[i + 1].as_bytes(), u64::MAX);
            i = i + 1;
        } else if has && token_is(w, &BTIME) {
            config.btime = parse_unsigned(tokens[i + 1].as_bytes(), u64::MAX);
            i = i + 1;
        } else if has && token_is(w, &WINC) {
            config.winc = parse_unsigned(tokens[i + 1].as_bytes(), u64::MAX);
            i = i + 1;
        } else if has && token_is(w, &BINC) {
            config.binc = parse_unsigned(tokens[i + 1].as_bytes(), u64::MAX);
            i = i + 1;
        } else if has && token_is(w, &MOVESTOGO) {
            let p = parse_unsigned(tokens[i + 1].as_bytes(), 0xFFFF_FFFF);
            config.movestogo = match p {
                Some(v) => Some(v as u32),
                None => None,
            };
            proof {
                assert(config.movestogo == u32_of(t[i0 + 1]));
            }
            i = i + 1;
        } else if has && token_is(w, &DEPTH) {
            if let Some(d) = parse_unsigned(tokens[i + 1].as_bytes(), 255) {
                config.max_depth = d as u8;
            }
            i = i + 1;
        } else if has && token_is(w, &NODES) {
            config.nodes_limit = parse_unsigned(tokens[i + 1].as_bytes(), u64::MAX);
            i = i + 1;
        } else if has && token_is(w, &MOVETIME) {
            config.movetime = parse_unsigned(tokens[i + 1].as_bytes(), u64::MAX);
            i = i + 1;
        } else if token_is(w, &INFINITE) {
            config.infinite = true;
        }
        assert(go_from(t, i0, c0) == go_from(t, i + 1, config));
        i = i + 1;
    }
    config
}

/// The square written as the file byte `f` and rank byte `r`, `a1` to
/// `h8`.
pub open spec fn square_of(f: u8, r: u8) -> Option<u8> {
    if 97 <= f <= 104 && 49 <= r <= 56 {
        Some(((r - 49) * 8 + (f - 97)) as u8)
    } else {
        None
    }
}

/// The letter that names a promotion to `k`.
pub open spec fn promo_letter(k: PieceKind) -> Option<u8> {
    match k {
        PieceKind::Queen => Some(113u8),
        PieceKind::Rook => Some(114u8),
        PieceKind::Bishop => Some(98u8),
        PieceKind::Knight => Some(110u8),
        _ => None,
    }
}

/// The UCI text `s` names `m`: its first four bytes are the origin and
/// destination squares; a promotion is named by the fifth byte, a queen
/// when there is none; a move without promotion ignores a fifth byte.
pub open spec fn uci_names(s: Seq<u8>, m: Move) -> bool {
    &&& s.len() >= 4
    &&& square_of(s[0], s[1]) == Some(m.from)
    &&& square_of(s[2], s[3]) == Some(m.to)
    &&& match m.promotion {
        None => true,
        Some(p) => if s.len() >= 5 {
            promo_letter(p) == Some(s[4])
        } else {
            p == PieceKind::Queen
        },
    }
}

/// A byte at which a UTF-8 character starts (or ASCII).
pub open spec fn starts_char(b: u8) -> bool {
    b < 128 || b >= 192
}

/// The squares of a UCI move text can be cut out: its third byte, and its
/// fifth when there is one, start characters.
pub open spec fn uci_text_ok(s: Seq<u8>) -> bool {
    s.len() >= 4 ==> starts_char(s[2]) && (s.len() == 4 || starts_char(s[4]))
}

/// The square written as two bytes.
fn square_from_bytes(f: u8, r: u8) -> (sq: Option<u8>)
    ensures
        sq == square_of(f, r),
{
    let file = f.wrapping_sub(97);
    let rank = r.wrapping_sub(49);
    if file > 7 || rank > 7 {
        return None;
    }
    Some(rank * 8 + file)
}

/// The legal move that the UCI text `uci_str` names (`e2e4`, `e7e8q`), if
/// there is one.
pub fn move_from_uci(board: &Board, uci_str: &str) -> (r: Option<Move>)
    requires
        board.wf(),
        uci_text_ok(uci_str.spec_bytes()),
    ensures
        r matches Some(m) ==> legal_moves(*board).contains(m) && uci_names(uci_str.spec_bytes(), m),
        r is None ==> forall|m: Move| #[trigger] legal_moves(*board).contains(m) ==> !uci_names(uci_str.spec_bytes(), m),
{
    let bytes = uci_str.as_bytes();
    if bytes.len() < 4 {
        return None;
    }
    let from = match square_from_bytes(bytes[0], bytes[1]) {
        Some(sq) => sq,
        None => {
            return None;
        },
    };
    let to = match square_from_bytes(bytes[2], bytes[3]) {
        Some(sq) => sq,
        None => {
            return None;
        },
    };
    let promotion_char = if bytes.len() >= 5 {
        Some(bytes[4])
    } else {
        None
    };
    let moves = board.generate_all_moves();
    let mut i: usize = 0;
    while i < moves.len()
        invariant
            board.wf(),
            bytes@ == uci_str.spec_bytes(),
            bytes@.len() >= 4,
            square_of(bytes@[0], bytes@[1]) == Some(from),
            square_of(bytes@[2], bytes@[3]) == Some(to),
            promotion_char == (if bytes@.len() >= 5 {
                Some(bytes@[4])
            } else {
                None
            }),
            i <= moves.len(),
            forall|m: Move| #![trigger moves@.contains(m)] moves@.contains(m) <==> crate::game::movegen::pseudo_legal(*board, m),
            forall|j: int| 0 <= j < i ==> !(legal_moves(*board).contains(#[trigger] moves@[j]) && uci_names(bytes@, moves@[j])),
        decreases moves.len() - i,
    {
        let mv = moves[i];
        if mv.from == from && mv.to == to {
            let named = match (mv.promotion, promotion_char) {
                (Some(promo), Some(ch)) => {
                    let letter: u8 = match promo {
                        PieceKind::Queen => 113,
                        PieceKind::Rook => 114,
                        PieceKind::Bishop => 98,
                        PieceKind::Knight => 110,
                        _ => 0,
                    };
                    letter != 0 && letter == ch
                },
                (None, _) => true,
                (Some(promo), None) => promo == PieceKind::Queen,
            };
            if named && board.is_legal_move(mv) {
                proof {
                    assert(moves@.contains(mv));
                    assert(legal_moves(*board).contains(mv));
                    match mv.promotion {
                        Some(p) => {
                            if bytes@.len() >= 5 {
                                assert(promo_letter(p) == Some(bytes@[4]));
                            } else {
                                assert(p == PieceKind::Queen);
                            }
                        },
                        None => {},
                    }
                    assert(uci_names(bytes@, mv));
                }
                return Some(mv);
            }
        }
        i = i + 1;
    }
    proof {
        assert forall|m: Move| #[trigger] legal_moves(*board).contains(m) implies !uci_names(bytes@, m) by {
            assert(moves@.contains(m));
            let j = choose|j: int| 0 <= j < moves.len() && moves@[j] == m;
        }
    }
    None
}

/// The index of the first token equal to `w` from `i` on, or the number
/// of tokens.
pub open spec fn find_word(t: Seq<Seq<u8>>, w: Seq<u8>, i: int) -> int
    decreases t.len() - i,
{
    if i < 0 || i >= t.len() {
        t.len() as int
    } else if t[i] == w {
        i
    } else {
        find_word(t, w, i + 1)
    }
}

/// The index found lies between the start and the number of tokens.
proof fn lemma_find_word_range(t: Seq<Seq<u8>>, w: Seq<u8>, i: int)
    requires
        0 <= i,
    ensures
        i <= find_word(t, w, i) <= t.len() || (i > t.len() && find_word(t, w, i) == t.len()),
        find_word(t, w, i) < t.len() ==> t[find_word(t, w, i)] == w,
    decreases t.len() - i,
{
    if i < t.len() && t[i] != w {
        lemma_find_word_range(t, w, i + 1);
    }
}

/// The tokens `t[lo..hi]` joined by single spaces.
pub open spec fn joined(t: Seq<Seq<u8>>, lo: int, hi: int) -> Seq<u8>
    decreases hi - lo,
{
    if hi <= lo {
        Seq::empty()
    } else if hi == lo + 1 {
        t[lo]
    } else {
        joined(t, lo, hi - 1) + seq![32u8] + t[hi - 1]
    }
}

/// Playing the UCI moves `ms` from `b` in turn, each a legal move that the
/// text names, reaches `fin`; `hs` are the hashes of the positions met,
/// `b`'s first.
pub open spec fn uci_line(b: Board, ms: Seq<Seq<u8>>, fin: Board, hs: Seq<u64>) -> bool
    decreases ms.len(),
{
    if ms.len() == 0 {
        fin == b && hs == seq![b.zobrist_hash]
    } else {
        &&& hs.len() > 0
        &&& hs[0] == b.zobrist_hash
        &&& exists|m: Move, a: Board, u: UndoInfo|
            legal_moves(b).contains(m) && uci_names(ms[0], m) && made(b, m, a, u) && uci_line(
                a,
                ms.drop_first(),
                fin,
                hs.drop_first(),
            )
    }
}

/// One more move extends a line.
proof fn lemma_uci_line_push(b: Board, ms: Seq<Seq<u8>>, fin: Board, hs: Seq<u64>, tok: Seq<u8>, m: Move, a: Board, u: UndoInfo)
    requires
        uci_line(b, ms, fin, hs),
        legal_moves(fin).contains(m),
        uci_names(tok, m),
        made(fin, m, a, u),
    ensures
        uci_line(b, ms.push(tok), a, hs.push(a.zobrist_hash)),
    decreases ms.len(),
{
    if ms.len() == 0 {
        assert(ms.push(tok).drop_first() =~= Seq::<Seq<u8>>::empty());
        assert(hs.push(a.zobrist_hash).drop_first() =~= seq![a.zobrist_hash]);
        assert(uci_line(a, Seq::<Seq<u8>>::empty(), a, seq![a.zobrist_hash]));
        assert(ms.push(tok)[0] == tok);
    } else {
        let (m0, a0, u0) = choose|m0: Move, a0: Board, u0: UndoInfo|
            legal_moves(b).contains(m0) && uci_names(ms[0], m0) && made(b, m0, a0, u0) && uci_line(
                a0,
                ms.drop_first(),
                fin,
                hs.drop_first(),
            );
        lemma_uci_line_push(a0, ms.drop_first(), fin, hs.drop_first(), tok, m, a, u);
        assert(ms.push(tok).drop_first() =~= ms.drop_first().push(tok));
        assert(hs.push(a.zobrist_hash).drop_first() =~= hs.drop_first().push(a.zobrist_hash));
        assert(ms.push(tok)[0] == ms[0]);
    }
}

/// The position a `position` command starts from: the initial position
/// after `startpos`, or the position of the FEN text of the tokens after
/// `fen` up to `moves`.
pub open spec fn position_start(t: Seq<Seq<u8>>, b: Board) -> bool {
    &&& t.len() > 0
    &&& {
        ||| t[0] == STARTPOS@ && start_board(b)
        ||| t[0] == FEN@ && fen_board(joined(t, 1, find_word(t, MOVES@, 0)), b)
    }
}

/// The moves of a `position` command: the tokens after `moves`.
pub open spec fn position_moves(t: Seq<Seq<u8>>) -> Seq<Seq<u8>> {
    let k = find_word(t, MOVES@, 0);
    if k < t.len() {
        t.subrange(k + 1, t.len() as int)
    } else {
        Seq::empty()
    }
}

/// The index of the first token with the bytes of `w`.
fn find_token(tokens: &[&str], w: &[u8]) -> (k: usize)
    ensures
        k == find_word(token_bytes(tokens@), w@, 0),
{
    let ghost t = token_bytes(tokens@);
    let mut i: usize = 0;
    while i < tokens.len()
        invariant
            t == token_bytes(tokens@),
            t.len() == tokens@.len(),
            i <= tokens.len(),
            find_word(t, w@, 0) == find_word(t, w@, i as int),
        decreases tokens.len() - i,
    {
        proof {
            assert(t[i as int] == tokens@[i as int].spec_bytes());
        }
        if token_is(tokens[i], w) {
            return i;
        }
        i = i + 1;
    }
    i
}

/// The tokens `tokens[lo..hi]` joined by single spaces.
fn join_tokens(tokens: &[&str], lo: usize, hi: usize) -> (r: Vec<u8>)
    requires
        lo <= hi <= tokens.len(),
    ensures
        r@ == joined(token_bytes(tokens@), lo as int, hi as int),
{
    let ghost t = token_bytes(tokens@);
    let mut out: Vec<u8> = Vec::new();
    let mut k = lo;
    while k < hi
        invariant
            t == token_bytes(tokens@),
            t.len() == tokens@.len(),
            lo <= k <= hi,
            hi <= tokens.len(),
            out@ == joined(t, lo as int, k as int),
        decreases hi - k,
    {
        let ghost before = out@;
        if k > lo {
            out.push(32u8);
        }
        let b = tokens[k].as_bytes();
        let mut j: usize = 0;
        let ghost mid = out@;
        while j < b.len()
            invariant
                out@ == mid + b@.subrange(0, j as int),
                j <= b.len(),
            decreases b.len() - j,
        {
            out.push(b[j]);
            j = j + 1;
            proof {
                assert(b@.subrange(0, j as int) =~= b@.subrange(0, j - 1).push(b@[j - 1]));
            }
        }
        proof {
            assert(b@.subrange(0, b.len() as int) =~= b@);
            assert(t[k as int] == b@);
            if k > lo {
                assert(out@ =~= before + seq![32u8] + t[k as int]);
            } else {
                assert(out@ =~= t[k as int]);
            }
        }
        k = k + 1;
    }
    out
}

/// The position of a `position` command (`startpos` or `fen ...`, then
/// optionally `moves ...`) with the hashes of the positions of the game,
/// the first and every one after a move; none when the command does not
/// start with `startpos` or `fen`, the FEN text is refused, or a move
/// names no legal move.
pub fn parse_position(tokens: &[&str]) -> (r: Option<(Board, Vec<u64>)>)
    requires
        forall|k: int| 0 <= k < tokens@.len() ==> uci_text_ok(#[trigger] tokens@[k].spec_bytes()),
    ensures
        r matches Some(res) ==> exists|b0: Board|
            position_start(token_bytes(tokens@), b0) && uci_line(b0, position_moves(token_bytes(tokens@)), res.0, res.1@),
        r is None ==> {
            let t = token_bytes(tokens@);
            ||| t.len() == 0
            ||| t[0] != STARTPOS@ && t[0] != FEN@
            ||| t[0] == FEN@ && fen_fields(joined(t, 1, find_word(t, MOVES@, 0))) is Err
            ||| exists|b0: Board, k: int, bk: Board, hk: Seq<u64>|
                #![trigger uci_line(b0, position_moves(t).take(k), bk, hk)]
                position_start(t, b0) && 0 <= k < position_moves(t).len() && uci_line(b0, position_moves(t).take(k), bk, hk)
                    && forall|m: Move| #[trigger] legal_moves(bk).contains(m) ==> !uci_names(position_moves(t)[k], m)
        },
{
    let ghost t = token_bytes(tokens@);
    if tokens.len() == 0 {
        return None;
    }
    let moves_idx = find_token(tokens, &MOVES);
    proof {
        assert(t[0] == tokens@[0].spec_bytes());
    }
    let mut board = if token_is(tokens[0], &STARTPOS) {
        Board::new()
    } else if token_is(tokens[0], &FEN) {
        let fen_end = moves_idx;
        proof {
            lemma_find_word_range(t, MOVES@, 0);
            if fen_end < 1 {
                assert(t[0] == MOVES@);
                assert(FEN@.len() != MOVES@.len());
            }
        }
        let fen = join_tokens(tokens, 1, fen_end);
        match Board::from_fen_bytes(fen.as_slice()) {
            Ok(b) => b,
            Err(_) => {
                return None;
            },
        }
    } else {
        return None;
    };
    let ghost b0 = board;
    let start = if moves_idx < tokens.len() {
        moves_idx + 1
    } else {
        tokens.len()
    };
    let ghost ms = position_moves(t);
    proof {
        assert(position_start(t, b0));
        if moves_idx < tokens.len() {
            assert(ms =~= t.subrange(start as int, t.len() as int));
        } else {
            assert(ms =~= t.subrange(start as int, t.len() as int));
        }
        assert(ms.take(0) =~= Seq::<Seq<u8>>::empty());
    }
    let mut history: Vec<u64> = Vec::new();
    history.push(board.zobrist_hash);
    let mut k = start;
    while k < tokens.len()
        invariant
            t == token_bytes(tokens@),
            t.len() == tokens@.len(),
            start <= k <= tokens.len(),
            ms == t.subrange(start as int, t.len() as int),
            position_start(t, b0),
            ms == position_moves(t),
            forall|j: int| 0 <= j < tokens@.len() ==> uci_text_ok(#[trigger] tokens@[j].spec_bytes()),
            board.wf(),
            uci_line(b0, ms.take(k - start), board, history@),
        decreases tokens.len() - k,
    {
        proof {
            assert(t[k as int] == tokens@[k as int].spec_bytes());
            assert(ms[k - start] == t[k as int]);
        }
        match move_from_uci(&board, tokens[k]) {
            Some(mv) => {
                let ghost before = board;
                let ghost hist = history@;
                let _ = board.make_move(mv);
                history.push(board.zobrist_hash);
                proof {
                    let u = choose|u: UndoInfo| made(before, mv, board, u);
                    lemma_uci_line_push(b0, ms.take(k - start), before, hist, ms[k - start], mv, board, u);
                    assert(ms.take(k - start).push(ms[k - start]) =~= ms.take(k + 1 - start));
                }
            },
            None => {
                proof {
                    assert(uci_line(b0, ms.take(k - start), board, history@));
                }
                return None;
            },
        }
        k = k + 1;
    }
    proof {
        assert(ms.take(k - start) =~= ms);
    }
    Some((board, history))
}

/// The letter of file `f` (0 for a, 7 for h).
pub open spec fn file_char(f: int) -> char {
    if f == 0 {
        'a'
    } else if f == 1 {
        'b'
    } else if f == 2 {
        'c'
    } else if f == 3 {
        'd'
    } else if f == 4 {
        'e'
    } else if f == 5 {
        'f'
    } else if f == 6 {
        'g'
    } else {
        'h'
    }
}

/// The digit of rank `r` (0 for 1, 7 for 8).
pub open spec fn rank_char(r: int) -> char {
    if r == 0 {
        '1'
    } else if r == 1 {
        '2'
    } else if r == 2 {
        '3'
    } else if r == 3 {
        '4'
    } else if r == 4 {
        '5'
    } else if r == 5 {
        '6'
    } else if r == 6 {
        '7'
    } else {
        '8'
    }
}

/// The letter of a promotion: q, r, b or n (a king or pawn has none and
/// is written as a queen).
pub open spec fn promo_char(k: PieceKind) -> char {
    match k {
        PieceKind::Rook => 'r',
        PieceKind::Bishop => 'b',
        PieceKind::Knight => 'n',
        _ => 'q',
    }
}

/// The UCI text of a move: origin and destination squares, then the
/// promotion letter if any, as in `e2e4` or `e7e8q`.
pub open spec fn move_text(m: Move) -> Seq<char> {
    let base = seq![
        file_char((m.from % 8) as int),
        rank_char((m.from / 8) as int),
        file_char((m.to % 8) as int),
        rank_char((m.to / 8) as int),
    ];
    match m.promotion {
        Some(p) => base.push(promo_char(p)),
        None => base,
    }
}

/// The one-letter string of file `f`.
fn file_str(f: u8) -> (r: &'static str)
    requires
        f < 8,
    ensures
        r@ == seq![file_char(f as int)],
{
    proof {
        reveal_strlit("a");
        reveal_strlit("b");
        reveal_strlit("c");
        reveal_strlit("d");
        reveal_strlit("e");
        reveal_strlit("f");
        reveal_strlit("g");
        reveal_strlit("h");
    }
    if f == 0 {
        "a"
    } else if f == 1 {
        "b"
    } else if f == 2 {
        "c"
    } else if f == 3 {
        "d"
    } else if f == 4 {
        "e"
    } else if f == 5 {
        "f"
    } else if f == 6 {
        "g"
    } else {
        "h"
    }
}

/// The one-digit string of rank `r`.
fn rank_str(r: u8) -> (s: &'static str)
    requires
        r < 8,
    ensures
        s@ == seq![rank_char(r as int)],
{
    proof {
        reveal_strlit("1");
        reveal_strlit("2");
        reveal_strlit("3");
        reveal_strlit("4");
        reveal_strlit("5");
        reveal_strlit("6");
        reveal_strlit("7");
        reveal_strlit("8");
    }
    if r == 0 {
        "1"
    } else if r == 1 {
        "2"
    } else if r == 2 {
        "3"
    } else if r == 3 {
        "4"
    } else if r == 4 {
        "5"
    } else if r == 5 {
        "6"
    } else if r == 6 {
        "7"
    } else {
        "8"
    }
}

/// The one-letter string of a promotion.
fn promo_str(k: PieceKind) -> (s: &'static str)
    ensures
        s@ == seq![promo_char(k)],
{
    proof {
        reveal_strlit("q");
        reveal_strlit("r");
        reveal_strlit("b");
        reveal_strlit("n");
    }
    match k {
        PieceKind::Rook => "r",
        PieceKind::Bishop => "b",
        PieceKind::Knight => "n",
        _ => "q",
    }
}

impl Move {
    /// The move in UCI notation (see `move_text`).
    pub fn to_uci(&self) -> (s: String)
        requires
            self.from < 64,
            self.to < 64,
        ensures
            s@ == move_text(*self),
    {
        let mut s = String::from_str(file_str(self.from % 8));
        s.append(rank_str(self.from / 8));
        s.append(file_str(self.to % 8));
        s.append(rank_str(self.to / 8));
        if let Some(p) = self.promotion {
            s.append(promo_str(p));
        }
        proof {
            let base = seq![
                file_char((self.from % 8) as int),
                rank_char((self.from / 8) as int),
                file_char((self.to % 8) as int),
                rank_char((self.to / 8) as int),
            ];
            assert(seq![file_char((self.from % 8) as int)] + seq![rank_char((self.from / 8) as int)] + seq![file_char((self.to % 8) as int)]
                + seq![rank_char((self.to / 8) as int)] =~= base);
            if let Some(p) = self.promotion {
                assert(base + seq![promo_char(p)] =~= base.push(promo_char(p)));
            }
        }
        s
    }
}

} // verus!
