use chess_engine::attacks::{pawn_moves, sliding_attacks, step_attacks};
use chess_engine::{init_rays, Bitboard, Sides};

fn bits(squares: &[usize]) -> u64 {
    let mut m = 0u64;
    for s in squares {
        m |= 1u64 << s;
    }
    m
}

#[test]
fn rays_from_the_corner() {
    let rays = init_rays();
    assert_eq!(rays.ray(0, 0).0, 0xFE);
    assert_eq!(rays.ray(1, 0).0, 0);
    assert_eq!(rays.ray(2, 0).0, 0);
    assert_eq!(rays.ray(3, 0).0, 0);
    assert_eq!(rays.ray(4, 0).0, 0x0101_0101_0101_0100);
    assert_eq!(rays.ray(5, 0).0, 0);
    assert_eq!(rays.ray(6, 0).0, 0x8040_2010_0804_0200);
    assert_eq!(rays.ray(7, 0).0, 0);
}

#[test]
fn rays_reach_the_first_square() {
    let rays = init_rays();
    assert_eq!(rays.ray(1, 7).0, 0x7F);
    assert_eq!(rays.ray(5, 56).0, 0x0001_0101_0101_0101);
    assert_eq!(rays.ray(7, 63).0, 0x0040_2010_0804_0201);
    assert_eq!(rays.ray(2, 7).0, 0x0102_0408_1020_4000);
    assert_eq!(rays.ray(3, 56).0, 0x0002_0408_1020_4080);
}

#[test]
fn no_ray_crosses_an_edge() {
    let rays = init_rays();
    let steps: [(i32, i32); 8] =
        [(1, 0), (-1, 0), (-1, 1), (1, -1), (0, 1), (0, -1), (1, 1), (-1, -1)];
    for d in 0..8usize {
        for sq in 0..64usize {
            let ray = rays.ray(d, sq).0;
            let mut expected = 0u64;
            let (mut f, mut r) = ((sq % 8) as i32, (sq / 8) as i32);
            loop {
                f += steps[d].0;
                r += steps[d].1;
                if f < 0 || f > 7 || r < 0 || r > 7 {
                    break;
                }
                expected |= 1u64 << (r * 8 + f);
            }
            assert_eq!(ray, expected);
        }
    }
}

#[test]
fn a_rook_stops_at_the_first_piece() {
    let rays = init_rays();
    let occupied = Bitboard(bits(&[0, 2, 24, 40]));
    let attacks = sliding_attacks(&rays, 0, occupied, &[0, 1, 4, 5]);
    assert_eq!(attacks.0, bits(&[1, 2, 8, 16, 24]));
}

#[test]
fn a_bishop_stops_at_the_first_piece_downwards() {
    let rays = init_rays();
    // from f6, pieces on d4 and b2 (down left), g7 (up right), h4 (down right)
    let occupied = Bitboard(bits(&[45, 27, 9, 54, 31]));
    let attacks = sliding_attacks(&rays, 45, occupied, &[2, 3, 6, 7]);
    assert_eq!(attacks.0, bits(&[52, 59, 38, 31, 54, 36, 27]));
}

#[test]
fn a_slider_on_an_empty_board_sees_whole_rays() {
    let rays = init_rays();
    let attacks = sliding_attacks(&rays, 27, Bitboard(1 << 27), &[0, 1, 4, 5]);
    assert_eq!(attacks.0, 0x0808_0808_F708_0808);
    assert_eq!(sliding_attacks(&rays, 27, Bitboard(0), &[]).0, 0);
}

#[test]
fn steps_of_a_king() {
    let king: [i8; 8] = [1, -1, 8, -8, 7, -7, 9, -9];
    assert_eq!(step_attacks(0, &king).0, bits(&[1, 8, 9]));
    assert_eq!(step_attacks(7, &king).0, bits(&[6, 14, 15]));
    assert_eq!(step_attacks(63, &king).0, bits(&[62, 54, 55]));
    assert_eq!(step_attacks(27, &king).0, bits(&[18, 19, 20, 26, 28, 34, 35, 36]));
}

#[test]
fn steps_of_a_knight_keep_within_one_file() {
    let knight: [i8; 8] = [15, 17, 10, 6, -15, -17, -10, -6];
    assert_eq!(step_attacks(1, &knight).0, bits(&[16, 18]));
    assert_eq!(step_attacks(27, &knight).0, bits(&[42, 44, 12, 10]));
    assert_eq!(step_attacks(63, &knight).0, bits(&[46]));
}

#[test]
fn steps_take_any_delta() {
    assert_eq!(step_attacks(63, &[127, -128, 1, 0]).0, bits(&[63]));
    assert_eq!(step_attacks(5, &[]).0, 0);
}

#[test]
fn pawn_pushes() {
    let none = Bitboard(0);
    assert_eq!(pawn_moves(12, Sides::White, none).0, bits(&[20, 28]));
    assert_eq!(pawn_moves(52, Sides::Black, none).0, bits(&[44, 36]));
    assert_eq!(pawn_moves(20, Sides::White, none).0, bits(&[28]));
    assert_eq!(pawn_moves(44, Sides::Black, none).0, bits(&[36]));
    assert_eq!(pawn_moves(12, Sides::White, Bitboard(1 << 20)).0, 0);
    assert_eq!(pawn_moves(12, Sides::White, Bitboard(1 << 28)).0, bits(&[20]));
    assert_eq!(pawn_moves(52, Sides::Black, Bitboard(1 << 44)).0, 0);
    assert_eq!(pawn_moves(52, Sides::Black, Bitboard(1 << 36)).0, bits(&[44]));
    assert_eq!(pawn_moves(60, Sides::White, none).0, 0);
    assert_eq!(pawn_moves(3, Sides::Black, none).0, 0);
    assert_eq!(pawn_moves(8, Sides::Black, none).0, bits(&[0]));
    assert_eq!(pawn_moves(55, Sides::White, none).0, bits(&[63]));
}

#[test]
fn bitboard_operators() {
    let a = Bitboard(0b1100);
    let b = Bitboard(0b1010);
    assert_eq!((a | b).0, 0b1110);
    assert_eq!((a & b).0, 0b1000);
    assert_eq!((a ^ b).0, 0b0110);
    assert_eq!((!a).0, !0b1100u64);
    assert_eq!(Bitboard::default().0, 0);
    assert_eq!(Bitboard::empty().0, 0);
    assert_eq!(Bitboard::single(63).0, 1 << 63);
    assert!(a.contains(2) && a.contains(3) && !a.contains(1));
    assert!(Bitboard(0).is_empty() && !a.is_empty());
    let mut c = a;
    c |= b;
    assert_eq!(c.0, 0b1110);
    c &= Bitboard(0b0110);
    assert_eq!(c.0, 0b0110);
    c ^= Bitboard(0b0011);
    assert_eq!(c.0, 0b0101);
}

#[test]
fn bit_helpers() {
    assert_eq!(chess_engine::bits::popcount(0), 0);
    assert_eq!(chess_engine::bits::popcount(u64::MAX), 64);
    assert_eq!(chess_engine::bits::popcount(0x8000_0000_0000_0001), 2);
    assert_eq!(chess_engine::bits::single_bit(5), 32);
    assert!(chess_engine::bits::test_bit(32, 5));
    assert!(!chess_engine::bits::test_bit(32, 4));
}
