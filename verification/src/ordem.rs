//! Ordem das chaves: lexicográfica pelos bytes da forma UTF-8.

use crate::texto;
use vstd::prelude::*;

verus! {

broadcast use vstd::string::group_string_axioms;

/// `a` vem antes de `b` ou é igual, byte a byte.
pub open spec fn bytes_ate(a: Seq<u8>, b: Seq<u8>) -> bool
    decreases a.len(),
{
    if a.len() == 0 {
        true
    } else if b.len() == 0 {
        false
    } else if a[0] != b[0] {
        a[0] < b[0]
    } else {
        bytes_ate(a.drop_first(), b.drop_first())
    }
}

/// O texto `a` vem antes de `b` ou é igual.
pub open spec fn ate(a: Seq<char>, b: Seq<char>) -> bool {
    bytes_ate(vstd::utf8::encode_utf8(a), vstd::utf8::encode_utf8(b))
}

/// A lista está em ordem não decrescente.
pub open spec fn ordenada(s: Seq<Seq<char>>) -> bool {
    forall|i: int, j: int| 0 <= i <= j < s.len() ==> ate(#[trigger] s[i], #[trigger] s[j])
}

proof fn lema_bytes_total(a: Seq<u8>, b: Seq<u8>)
    ensures
        bytes_ate(a, b) || bytes_ate(b, a),
    decreases a.len(),
{
    if a.len() > 0 && b.len() > 0 && a[0] == b[0] {
        lema_bytes_total(a.drop_first(), b.drop_first());
    }
}

proof fn lema_bytes_transitiva(a: Seq<u8>, b: Seq<u8>, c: Seq<u8>)
    requires
        bytes_ate(a, b),
        bytes_ate(b, c),
    ensures
        bytes_ate(a, c),
    decreases a.len(),
{
    if a.len() > 0 && b.len() > 0 && c.len() > 0 && a[0] == b[0] && b[0] == c[0] {
        lema_bytes_transitiva(a.drop_first(), b.drop_first(), c.drop_first());
    }
}

/// O que vem depois de um trecho comum decide.
proof fn lema_bytes_prefixo(p: Seq<u8>, a: Seq<u8>, b: Seq<u8>)
    ensures
        bytes_ate(p + a, p + b) == bytes_ate(a, b),
    decreases p.len(),
{
    if p.len() == 0 {
        assert(p + a =~= a);
        assert(p + b =~= b);
    } else {
        lema_bytes_prefixo(p.drop_first(), a, b);
        assert((p + a).drop_first() =~= p.drop_first() + a);
        assert((p + b).drop_first() =~= p.drop_first() + b);
    }
}

/// Dois textos sempre se comparam.
pub proof fn lema_total(a: Seq<char>, b: Seq<char>)
    ensures
        ate(a, b) || ate(b, a),
{
    lema_bytes_total(vstd::utf8::encode_utf8(a), vstd::utf8::encode_utf8(b));
}

/// A ordem é transitiva.
pub proof fn lema_transitiva(a: Seq<char>, b: Seq<char>, c: Seq<char>)
    requires
        ate(a, b),
        ate(b, c),
    ensures
        ate(a, c),
{
    lema_bytes_transitiva(
        vstd::utf8::encode_utf8(a),
        vstd::utf8::encode_utf8(b),
        vstd::utf8::encode_utf8(c),
    );
}

/// Textos com o mesmo começo ordenam-se pelo que vem depois.
pub proof fn lema_prefixo_comum(p: Seq<char>, a: Seq<char>, b: Seq<char>)
    ensures
        ate(p + a, p + b) == ate(a, b),
    decreases p.len(),
{
    if p.len() == 0 {
        assert(p + a =~= a);
        assert(p + b =~= b);
    } else {
        lema_prefixo_comum(p.drop_first(), a, b);
        assert((p + a).drop_first() =~= p.drop_first() + a);
        assert((p + b).drop_first() =~= p.drop_first() + b);
        lema_bytes_prefixo(
            vstd::utf8::encode_scalar(p[0] as u32),
            vstd::utf8::encode_utf8(p.drop_first() + a),
            vstd::utf8::encode_utf8(p.drop_first() + b),
        );
    }
}

/// Algarismo menor à frente vem antes.
proof fn lema_algarismo_menor(a: Seq<char>, b: Seq<char>)
    requires
        a.len() > 0,
        b.len() > 0,
        texto::e_digito(a[0]),
        texto::e_digito(b[0]),
        a[0] < b[0],
    ensures
        ate(a, b),
{
    let x = a[0] as u32;
    let y = b[0] as u32;
    assert(vstd::utf8::leading_byte_width_1(x) < vstd::utf8::leading_byte_width_1(y)) by (bit_vector)
        requires
            x < y < 128,
    ;
    let ea = vstd::utf8::encode_utf8(a);
    let eb = vstd::utf8::encode_utf8(b);
    assert(ea[0] == vstd::utf8::leading_byte_width_1(x));
    assert(eb[0] == vstd::utf8::leading_byte_width_1(y));
}

/// Escritos com os mesmos algarismos em número, o valor menor vem antes.
pub proof fn lema_algarismos_em_ordem(u: Seq<char>, v: Seq<char>, a: Seq<char>, b: Seq<char>)
    requires
        u.len() == v.len(),
        texto::so_digitos(u),
        texto::so_digitos(v),
        texto::valor(u) < texto::valor(v),
    ensures
        ate(u + a, v + b),
    decreases u.len(),
{
    if u.len() > 0 {
        let u1 = u.drop_last();
        let v1 = v.drop_last();
        let d = u.last();
        let e = v.last();
        assert(texto::e_digito(u[u.len() - 1]));
        assert(texto::e_digito(v[v.len() - 1]));
        assert forall|i: int| 0 <= i < u1.len() implies texto::e_digito(#[trigger] u1[i]) by {
            assert(texto::e_digito(u[i]));
        }
        assert forall|i: int| 0 <= i < v1.len() implies texto::e_digito(#[trigger] v1[i]) by {
            assert(texto::e_digito(v[i]));
        }
        assert(u + a =~= u1 + (seq![d] + a));
        assert(v + b =~= v1 + (seq![e] + b));
        if texto::valor(u1) < texto::valor(v1) {
            lema_algarismos_em_ordem(u1, v1, seq![d] + a, seq![e] + b);
        } else {
            lema_mesmo_valor(u1, v1);
            lema_algarismo_menor(seq![d] + a, seq![e] + b);
            lema_prefixo_comum(u1, seq![d] + a, seq![e] + b);
        }
    }
}

/// Com os mesmos algarismos em número, o valor determina o texto.
pub proof fn lema_mesmo_valor(u: Seq<char>, v: Seq<char>)
    requires
        u.len() == v.len(),
        texto::so_digitos(u),
        texto::so_digitos(v),
        texto::valor(u) == texto::valor(v),
    ensures
        u == v,
    decreases u.len(),
{
    if u.len() > 0 {
        let u1 = u.drop_last();
        let v1 = v.drop_last();
        assert(texto::e_digito(u[u.len() - 1]));
        assert(texto::e_digito(v[v.len() - 1]));
        assert forall|i: int| 0 <= i < u1.len() implies texto::e_digito(#[trigger] u1[i]) by {
            assert(texto::e_digito(u[i]));
        }
        assert forall|i: int| 0 <= i < v1.len() implies texto::e_digito(#[trigger] v1[i]) by {
            assert(texto::e_digito(v[i]));
        }
        lema_mesmo_valor(u1, v1);
        assert(u =~= u1.push(u.last()));
        assert(v =~= v1.push(v.last()));
    } else {
        assert(u =~= v);
    }
}

/// Compara dois textos na ordem das chaves.
pub fn vem_ate(a: &str, b: &str) -> (r: bool)
    ensures
        r == ate(a@, b@),
{
    let x = a.as_bytes();
    let y = b.as_bytes();
    let ghost sx = x@;
    let ghost sy = y@;
    let mut i: usize = 0;
    assert(sx.skip(0) =~= sx);
    assert(sy.skip(0) =~= sy);
    while i < x.len() && i < y.len()
        invariant
            x@ == sx,
            y@ == sy,
            sx == vstd::utf8::encode_utf8(a@),
            sy == vstd::utf8::encode_utf8(b@),
            i <= sx.len(),
            i <= sy.len(),
            bytes_ate(sx.skip(i as int), sy.skip(i as int)) == bytes_ate(sx, sy),
        decreases sx.len() - i,
    {
        if x[i] != y[i] {
            return x[i] < y[i];
        }
        assert(sx.skip(i as int).drop_first() =~= sx.skip(i + 1));
        assert(sy.skip(i as int).drop_first() =~= sy.skip(i + 1));
        i = i + 1;
    }
    i == x.len()
}

/// A primeira posição da lista ordenada em que `chave` pode entrar sem quebrar
/// a ordem.
fn posicao(v: &Vec<String>, chave: &str) -> (r: usize)
    requires
        ordenada(texto::textos(v@)),
    ensures
        r <= v@.len(),
        forall|i: int| 0 <= i < r ==> !ate(chave@, #[trigger] texto::textos(v@)[i]),
        forall|i: int| r <= i < v@.len() ==> ate(chave@, #[trigger] texto::textos(v@)[i]),
{
    let ghost t = texto::textos(v@);
    let mut lo: usize = 0;
    let mut hi: usize = v.len();
    while lo < hi
        invariant
            t == texto::textos(v@),
            ordenada(t),
            lo <= hi <= v@.len(),
            forall|i: int| 0 <= i < lo ==> !ate(chave@, #[trigger] t[i]),
            forall|i: int| hi <= i < v@.len() ==> ate(chave@, #[trigger] t[i]),
        decreases hi - lo,
    {
        let meio = lo + (hi - lo) / 2;
        assert(t[meio as int] == v@[meio as int]@);
        if vem_ate(chave, v[meio].as_str()) {
            assert forall|i: int| meio <= i < v@.len() implies ate(chave@, #[trigger] t[i]) by {
                lema_transitiva(chave@, t[meio as int], t[i]);
            }
            hi = meio;
        } else {
            assert forall|i: int| 0 <= i <= meio implies !ate(chave@, #[trigger] t[i]) by {
                if ate(chave@, t[i]) {
                    lema_transitiva(chave@, t[i], t[meio as int]);
                }
            }
            lo = meio + 1;
        }
    }
    lo
}

/// Ordena as chaves.
pub fn ordena(v: &Vec<String>) -> (r: Vec<String>)
    ensures
        ordenada(texto::textos(r@)),
        texto::textos(r@).to_multiset() == texto::textos(v@).to_multiset(),
{
    let ghost t = texto::textos(v@);
    let mut r: Vec<String> = Vec::new();
    let mut i: usize = 0;
    assert(t.take(0) =~= texto::textos(r@));
    while i < v.len()
        invariant
            t == texto::textos(v@),
            i <= v@.len(),
            ordenada(texto::textos(r@)),
            texto::textos(r@).to_multiset() == t.take(i as int).to_multiset(),
        decreases v@.len() - i,
    {
        let ghost antes = texto::textos(r@);
        let ghost k = v@[i as int]@;
        let p = posicao(&r, v[i].as_str());
        r.insert(p, v[i].clone());
        let ghost agora = texto::textos(r@);
        assert(agora =~= antes.insert(p as int, k));
        proof {
            vstd::seq_lib::to_multiset_insert(antes, p as int, k);
            vstd::seq_lib::to_multiset_build(t.take(i as int), k);
            assert(t.take(i + 1) =~= t.take(i as int).push(k));
            assert forall|a: int, b: int| 0 <= a <= b < agora.len() implies ate(
                #[trigger] agora[a],
                #[trigger] agora[b],
            ) by {
                lema_total(agora[a], agora[b]);
                let a0 = if a < p { a } else { a - 1 };
                let b0 = if b < p { b } else { b - 1 };
                if a == p && b == p {
                } else if a == p {
                    assert(agora[b] == antes[b0]);
                } else if b == p {
                    assert(agora[a] == antes[a0]);
                } else {
                    assert(agora[a] == antes[a0]);
                    assert(agora[b] == antes[b0]);
                }
            }
        }
        i = i + 1;
    }
    assert(t.take(i as int) =~= t);
    r
}

} // verus!
