//! Small helpers: wrap-around stepping and buff pictures.
use vstd::prelude::*;
use crate::assets::ImgID;
use crate::buffs::BuffType;

verus! {

/// `value` moved by `op` steps round a cycle of `modulus` positions.
pub fn add_mod(value: usize, op: isize, modulus: usize) -> (r: usize)
    requires
        modulus > 0,
    ensures
        r == (value + op) % (modulus as int),
{
    let m = modulus as i128;
    let s: i128 = value as i128 + op as i128;
    if s >= 0 {
        (s % m) as usize
    } else {
        let t: i128 = (-s) % m;
        proof {
            let ns: int = -(s as int);
            let mi: int = m as int;
            let q: int = ns / mi;
            vstd::arithmetic::div_mod::lemma_fundamental_div_mod(ns, mi);
            assert(t == ns % mi);
            vstd::arithmetic::div_mod::lemma_mod_pos_bound(ns, mi);
            assert(s == (-q) * mi - t) by (nonlinear_arith)
                requires ns == mi * q + t, s == -ns;
            assert(s == (-q - 1) * mi + (mi - t)) by (nonlinear_arith)
                requires s == (-q) * mi - t;
            if t == 0 {
                vstd::arithmetic::div_mod::lemma_fundamental_div_mod_converse(s as int, mi, -q, 0);
            } else {
                vstd::arithmetic::div_mod::lemma_fundamental_div_mod_converse(s as int, mi, -q - 1, mi - t);
            }
        }
        if t == 0 {
            0
        } else {
            (m - t) as usize
        }
    }
}

/// The badge picture of a buff kind.
pub fn buff_to_img(buff: &BuffType) -> (r: ImgID)
    ensures
        r == match *buff {
            BuffType::Aura => ImgID::Aura,
            BuffType::Damage => ImgID::Damage,
            BuffType::RPM => ImgID::RPM,
            BuffType::Freeze => ImgID::Freeze,
            BuffType::Range => ImgID::Range,
        },
{
    match buff {
        BuffType::Aura => ImgID::Aura,
        BuffType::Damage => ImgID::Damage,
        BuffType::RPM => ImgID::RPM,
        BuffType::Freeze => ImgID::Freeze,
        BuffType::Range => ImgID::Range,
    }
}

} // verus!
