//! Parsing do GLM-L2-LCFA: dos valores das variáveis de um `.nc` aos **flashes**
//! já geolocalizados e clipados no BBOX.
//!
//! O L2 LCFA já vem clusterizado (events→groups→flashes) e os flashes já vêm em
//! **lat/lon WGS84**. As demais grandezas são `short` **unsigned** com escala e
//! offset (decodificadas aqui); o valor de preenchimento vira `None`. O tempo
//! absoluto de cada flash é o início do arquivo + o offset do 1º evento.
//!
//! `F` é o tipo das grandezas; as operações sobre ele vêm de quem chama.

use crate::momento;
use crate::momento::Momento;
use crate::raio::Flash;
use crate::texto;
use vstd::prelude::*;

verus! {

broadcast use vstd::string::group_string_axioms;

// ---------------------------------------------------------------------------
// Decodificação
// ---------------------------------------------------------------------------

/// O valor unsigned de um `short` lido com sinal.
pub open spec fn unsigned(raw: i16) -> u16 {
    if raw < 0 {
        (raw + 65536) as u16
    } else {
        raw as u16
    }
}

fn como_unsigned(raw: i16) -> (r: u16)
    ensures
        r == unsigned(raw),
{
    assert(raw < 0 ==> raw as u16 == raw + 65536) by (bit_vector);
    #[verifier::truncate]
    (raw as u16)
}

/// `v` é o que `raw` vale: `None` se `raw` é o valor de preenchimento, senão a
/// grandeza do valor unsigned.
pub open spec fn decodificado<F, P: Fn(i16) -> bool, E: Fn(u16) -> F>(
    raw: i16,
    e_fill: P,
    escala: E,
    v: Option<F>,
) -> bool {
    match v {
        Some(x) => e_fill.ensures((raw,), false) && escala.ensures((unsigned(raw),), x),
        None => e_fill.ensures((raw,), true),
    }
}

/// Decodifica um valor. `e_fill` diz se o valor cru, **com sinal**, é o de
/// preenchimento; `escala` aplica escala e offset ao valor unsigned.
pub fn decode<F, P: Fn(i16) -> bool, E: Fn(u16) -> F>(
    raw: i16,
    e_fill: &P,
    escala: &E,
) -> (r: Option<F>)
    requires
        e_fill.requires((raw,)),
        escala.requires((unsigned(raw),)),
    ensures
        decodificado(raw, *e_fill, *escala, r),
{
    if e_fill(raw) {
        None
    } else {
        Some(escala(como_unsigned(raw)))
    }
}

/// O valor unsigned tem os mesmos 16 bits: difere do valor com sinal por um
/// múltiplo de 65536, e valores crus diferentes não se confundem.
pub proof fn lei_unsigned(a: i16, b: i16)
    ensures
        unsigned(a) == a as int % 65536,
        0 <= a ==> unsigned(a) == a,
        unsigned(a) == unsigned(b) ==> a == b,
{
}

/// Decodificar: `None` exatamente quando o valor cru, com sinal, é o de
/// preenchimento; fora isso, a grandeza é a escala do resto do valor cru por
/// 65536.
pub proof fn lei_decode<F, P: Fn(i16) -> bool, E: Fn(u16) -> F>(
    raw: i16,
    e_fill: P,
    escala: E,
    v: Option<F>,
)
    requires
        decodificado(raw, e_fill, escala, v),
    ensures
        v is None ==> e_fill.ensures((raw,), true),
        v matches Some(x) ==> e_fill.ensures((raw,), false) && exists|u: u16| #[trigger]
            escala.ensures((u,), x) && u == raw as int % 65536,
{
    lei_unsigned(raw, raw);
}

/// Variável `short` unsigned com escala → grandezas (`None` no preenchimento).
pub fn ler_escalado<F, P: Fn(i16) -> bool, E: Fn(u16) -> F>(
    raw: &Vec<i16>,
    e_fill: &P,
    escala: &E,
) -> (r: Vec<Option<F>>)
    requires
        forall|x: i16| e_fill.requires((x,)),
        forall|x: u16| escala.requires((x,)),
    ensures
        r@.len() == raw@.len(),
        forall|i: int|
            0 <= i < r@.len() ==> decodificado(raw@[i], *e_fill, *escala, #[trigger] r@[i]),
{
    let mut r: Vec<Option<F>> = Vec::new();
    let mut i: usize = 0;
    while i < raw.len()
        invariant
            forall|x: i16| e_fill.requires((x,)),
            forall|x: u16| escala.requires((x,)),
            i <= raw@.len(),
            r@.len() == i,
            forall|j: int|
                0 <= j < i ==> decodificado(raw@[j], *e_fill, *escala, #[trigger] r@[j]),
        decreases raw@.len() - i,
    {
        r.push(decode(raw[i], e_fill, escala));
        i = i + 1;
    }
    r
}

/// Variável `short` **unsigned** sem escala → inteiros (reinterpreta o sinal).
pub fn ler_u16_como_i32(raw: &Vec<i16>) -> (r: Vec<i32>)
    ensures
        r@.len() == raw@.len(),
        forall|i: int| 0 <= i < r@.len() ==> #[trigger] r@[i] == unsigned(raw@[i]),
        forall|i: int| 0 <= i < r@.len() ==> #[trigger] r@[i] == raw@[i] as int % 65536,
{
    let mut r: Vec<i32> = Vec::new();
    let mut i: usize = 0;
    while i < raw.len()
        invariant
            i <= raw@.len(),
            r@.len() == i,
            forall|j: int| 0 <= j < i ==> #[trigger] r@[j] == unsigned(raw@[j]),
        decreases raw@.len() - i,
    {
        r.push(como_unsigned(raw[i]) as i32);
        i = i + 1;
    }
    r
}

/// `flash_quality_flag` (unsigned short, valores 0/1/3/5): os mesmos 16 bits.
pub fn ler_qualidade(raw: &Vec<i16>) -> (r: Vec<i16>)
    ensures
        r@ == raw@,
{
    let mut r: Vec<i16> = Vec::new();
    let mut i: usize = 0;
    while i < raw.len()
        invariant
            i <= raw@.len(),
            r@ =~= raw@.take(i as int),
        decreases raw@.len() - i,
    {
        let x = raw[i];
        assert((x as u16) as i16 == x) by (bit_vector);
        r.push(#[verifier::truncate] ((x as u16) as i16));
        i = i + 1;
    }
    r
}

// ---------------------------------------------------------------------------
// Flashes
// ---------------------------------------------------------------------------

/// Os valores das variáveis de flash de um `.nc`, já decodificados.
#[derive(Debug)]
pub struct Variaveis<F> {
    /// `flash_lat`, em graus.
    pub lat: Vec<F>,
    /// `flash_lon`, em graus.
    pub lon: Vec<F>,
    /// `flash_id`.
    pub ids: Vec<i32>,
    /// `flash_quality_flag`.
    pub qualidade: Vec<i16>,
    /// `flash_energy`.
    pub energia: Vec<Option<F>>,
    /// `flash_area`.
    pub area: Vec<Option<F>>,
    /// `flash_time_offset_of_first_event`, em segundos.
    pub toff: Vec<Option<F>>,
}

/// As coordenadas do arquivo não casam.
#[derive(Clone, Copy, Debug, PartialEq, Eq, Structural)]
pub struct CoordenadasDivergem {
    pub lat: usize,
    pub lon: usize,
}

impl CoordenadasDivergem {
    /// A mensagem do erro, como aparece para o operador.
    pub fn mensagem(&self) -> (r: String)
        ensures
            r@ == "flash_lat ("@ + texto::decimal(self.lat as nat) + ") e flash_lon ("@
                + texto::decimal(self.lon as nat) + ") divergem"@,
    {
        let mut s = "flash_lat (".to_owned();
        s.append(texto::escreve_natural(self.lat as u128).as_str());
        s.append(") e flash_lon (");
        s.append(texto::escreve_natural(self.lon as u128).as_str());
        s.append(") divergem");
        s
    }
}

/// `ate` responde sempre, e sempre o mesmo para os mesmos valores.
pub open spec fn compara<F, M: Fn(F, F) -> bool>(ate: M) -> bool {
    &&& forall|a: F, b: F| ate.requires((a, b))
    &&& forall|a: F, b: F, x: bool, y: bool|
        ate.ensures((a, b), x) && ate.ensures((a, b), y) ==> x == y
}

/// O ponto está dentro do BBOX `[oeste, sul, leste, norte]`, bordas inclusive.
/// `ate(a, b)` diz se `a` não passa de `b`.
pub open spec fn dentro<F, M: Fn(F, F) -> bool>(ate: M, lat: F, lon: F, bbox: [F; 4]) -> bool {
    &&& ate.ensures((bbox[0], lon), true)
    &&& ate.ensures((lon, bbox[2]), true)
    &&& ate.ensures((bbox[1], lat), true)
    &&& ate.ensures((lat, bbox[3]), true)
}

/// O ponto não está dentro do BBOX: algum dos quatro lados o recusa.
pub open spec fn fora<F, M: Fn(F, F) -> bool>(ate: M, lat: F, lon: F, bbox: [F; 4]) -> bool {
    ||| ate.ensures((bbox[0], lon), false)
    ||| ate.ensures((lon, bbox[2]), false)
    ||| ate.ensures((bbox[1], lat), false)
    ||| ate.ensures((lat, bbox[3]), false)
}

fn dentro_do_bbox<F: Copy, M: Fn(F, F) -> bool>(ate: &M, lat: F, lon: F, bbox: &[F; 4]) -> (r: bool)
    requires
        compara(*ate),
    ensures
        r == dentro(*ate, lat, lon, *bbox),
        !r == fora(*ate, lat, lon, *bbox),
{
    let oeste = ate(bbox[0], lon);
    let leste = ate(lon, bbox[2]);
    let sul = ate(bbox[1], lat);
    let norte = ate(lat, bbox[3]);
    oeste && leste && sul && norte
}

/// Diz, de cada posição do arquivo, se o flash cai no BBOX.
pub open spec fn no_bbox<F, M: Fn(F, F) -> bool>(
    v: Variaveis<F>,
    ate: M,
    bbox: [F; 4],
) -> spec_fn(int) -> bool {
    |i: int| dentro(ate, v.lat@[i], v.lon@[i], bbox)
}

/// As posições mantidas, entre as `n` primeiras, se `cai` diz quais ficam.
pub open spec fn mantidos(cai: spec_fn(int) -> bool, n: nat) -> Seq<int>
    decreases n,
{
    if n == 0 {
        Seq::<int>::empty()
    } else {
        let i = n - 1;
        let antes = mantidos(cai, i as nat);
        if cai(i) {
            antes.push(i)
        } else {
            antes
        }
    }
}

/// O clip conserva exatamente as posições que ficam, na ordem do arquivo.
pub proof fn lei_clip(cai: spec_fn(int) -> bool, n: nat)
    ensures
        forall|k: int, l: int|
            0 <= k < l < mantidos(cai, n).len() ==> #[trigger] mantidos(cai, n)[k]
                < #[trigger] mantidos(cai, n)[l],
        forall|i: int| #[trigger] mantidos(cai, n).contains(i) <==> 0 <= i < n && cai(i),
    decreases n,
{
    if n > 0 {
        let u = n - 1;
        let antes = mantidos(cai, u as nat);
        let agora = mantidos(cai, n);
        lei_clip(cai, u as nat);
        assert forall|k: int| 0 <= k < antes.len() implies 0 <= #[trigger] antes[k] < u by {
            assert(antes.contains(antes[k]));
        }
        assert forall|i: int| #[trigger] agora.contains(i) <==> 0 <= i < n && cai(i) by {
            if antes.contains(i) {
                let k = choose|k: int| 0 <= k < antes.len() && antes[k] == i;
                assert(agora[k] == i);
            }
            if agora.contains(i) {
                let k = choose|k: int| 0 <= k < agora.len() && agora[k] == i;
                if k < antes.len() {
                    assert(antes.contains(antes[k]));
                }
            }
            if i == u && cai(i) {
                assert(agora[antes.len() as int] == i);
            }
        }
    }
}

/// Os flashes de um arquivo são os das posições mantidas, na ordem.
pub open spec fn sao_os_mantidos<F, M: Fn(F, F) -> bool, S: Fn(F) -> i128>(
    fs: Seq<Flash<F>>,
    v: Variaveis<F>,
    ate: M,
    em_nanos: S,
    inicio: Momento,
    bbox: [F; 4],
    n: nat,
) -> bool {
    let pos = mantidos(no_bbox(v, ate, bbox), n);
    &&& fs.len() == pos.len()
    &&& forall|k: int|
        0 <= k < fs.len() ==> flash_da_posicao(#[trigger] fs[k], v, em_nanos, inicio, pos[k])
}

/// Todo flash que fica cai no BBOX.
pub proof fn lei_flash_no_bbox<F, M: Fn(F, F) -> bool, S: Fn(F) -> i128>(
    fs: Seq<Flash<F>>,
    v: Variaveis<F>,
    ate: M,
    em_nanos: S,
    inicio: Momento,
    bbox: [F; 4],
)
    requires
        sao_os_mantidos(fs, v, ate, em_nanos, inicio, bbox, v.lat@.len()),
    ensures
        forall|k: int|
            0 <= k < fs.len() ==> dentro(
                ate,
                (#[trigger] fs[k]).lat,
                fs[k].lon,
                bbox,
            ),
{
    let cai = no_bbox(v, ate, bbox);
    let pos = mantidos(cai, v.lat@.len());
    lei_clip(cai, v.lat@.len());
    assert forall|k: int| 0 <= k < fs.len() implies dentro(
        ate,
        (#[trigger] fs[k]).lat,
        fs[k].lon,
        bbox,
    ) by {
        assert(pos.contains(pos[k]));
        assert(cai(pos[k]));
    }
}

/// O valor opcional da posição `i`; `None` além do fim.
pub open spec fn na_posicao<F>(v: Seq<Option<F>>, i: int) -> Option<F> {
    if 0 <= i < v.len() {
        v[i]
    } else {
        None
    }
}

fn pega<F: Copy>(v: &Vec<Option<F>>, i: usize) -> (r: Option<F>)
    ensures
        r == na_posicao(v@, i as int),
{
    if i < v.len() {
        v[i]
    } else {
        None
    }
}

/// `f` é o flash da posição `i` do arquivo que começa em `inicio`. `em_nanos`
/// converte o offset; sem offset, o flash é do início do arquivo.
pub open spec fn flash_da_posicao<F, S: Fn(F) -> i128>(
    f: Flash<F>,
    v: Variaveis<F>,
    em_nanos: S,
    inicio: Momento,
    i: int,
) -> bool {
    &&& f.flash_id == v.ids@[i]
    &&& f.lat == v.lat@[i]
    &&& f.lon == v.lon@[i]
    &&& f.energia == na_posicao(v.energia@, i)
    &&& f.area == na_posicao(v.area@, i)
    &&& f.qualidade == v.qualidade@[i]
    &&& f.tempo.deslocamento == inicio.deslocamento
    &&& match na_posicao(v.toff@, i) {
        Some(off) => exists|n: i128| #[trigger]
            em_nanos.ensures((off,), n) && f.tempo.nanos == inicio.nanos + n,
        None => f.tempo.nanos == inicio.nanos,
    }
}

/// De onde vem cada flash: as posições `pos` crescem; são exatamente as que os
/// quatro lados do BBOX aceitam; e cada flash traz as grandezas da sua posição.
pub proof fn lei_flashes_do_arquivo<F, M: Fn(F, F) -> bool, S: Fn(F) -> i128>(
    fs: Seq<Flash<F>>,
    v: Variaveis<F>,
    ate: M,
    em_nanos: S,
    inicio: Momento,
    bbox: [F; 4],
) -> (pos: Seq<int>)
    requires
        sao_os_mantidos(fs, v, ate, em_nanos, inicio, bbox, v.lat@.len()),
    ensures
        pos == mantidos(no_bbox(v, ate, bbox), v.lat@.len()),
        pos.len() == fs.len(),
        forall|k: int, l: int| 0 <= k < l < pos.len() ==> #[trigger] pos[k] < #[trigger] pos[l],
        forall|i: int| #[trigger]
            pos.contains(i) <==> {
                &&& 0 <= i < v.lat@.len()
                &&& ate.ensures((bbox[0], v.lon@[i]), true)
                &&& ate.ensures((v.lon@[i], bbox[2]), true)
                &&& ate.ensures((bbox[1], v.lat@[i]), true)
                &&& ate.ensures((v.lat@[i], bbox[3]), true)
            },
        forall|k: int|
            0 <= k < fs.len() ==> {
                &&& (#[trigger] fs[k]).lat == v.lat@[pos[k]]
                &&& fs[k].lon == v.lon@[pos[k]]
                &&& fs[k].flash_id == v.ids@[pos[k]]
                &&& fs[k].qualidade == v.qualidade@[pos[k]]
                &&& pos[k] < v.energia@.len() ==> fs[k].energia == v.energia@[pos[k]]
                &&& pos[k] >= v.energia@.len() ==> fs[k].energia is None
                &&& pos[k] < v.area@.len() ==> fs[k].area == v.area@[pos[k]]
                &&& pos[k] >= v.area@.len() ==> fs[k].area is None
            },
{
    let cai = no_bbox(v, ate, bbox);
    let pos = mantidos(cai, v.lat@.len());
    lei_clip(cai, v.lat@.len());
    assert forall|k: int| 0 <= k < fs.len() implies {
        &&& (#[trigger] fs[k]).lat == v.lat@[pos[k]]
        &&& fs[k].lon == v.lon@[pos[k]]
        &&& fs[k].flash_id == v.ids@[pos[k]]
        &&& fs[k].qualidade == v.qualidade@[pos[k]]
        &&& pos[k] < v.energia@.len() ==> fs[k].energia == v.energia@[pos[k]]
        &&& pos[k] >= v.energia@.len() ==> fs[k].energia is None
        &&& pos[k] < v.area@.len() ==> fs[k].area == v.area@[pos[k]]
        &&& pos[k] >= v.area@.len() ==> fs[k].area is None
    } by {
        assert(flash_da_posicao(fs[k], v, em_nanos, inicio, pos[k]));
        assert(pos.contains(pos[k]));
    }
    pos
}

/// O offset de um flash é a distância, com sinal, ao início do arquivo: o tempo
/// do flash menos o início é um valor que `em_nanos` dá ao offset; sem offset, é
/// zero.
pub proof fn lei_tempo_do_flash<F, M: Fn(F, F) -> bool, S: Fn(F) -> i128>(
    fs: Seq<Flash<F>>,
    v: Variaveis<F>,
    ate: M,
    em_nanos: S,
    inicio: Momento,
    bbox: [F; 4],
    k: int,
)
    requires
        sao_os_mantidos(fs, v, ate, em_nanos, inicio, bbox, v.lat@.len()),
        0 <= k < fs.len(),
    ensures
        ({
            let p = mantidos(no_bbox(v, ate, bbox), v.lat@.len())[k];
            &&& p < v.toff@.len() && v.toff@[p] is Some ==> exists|n: i128| #[trigger]
                em_nanos.ensures((v.toff@[p]->0,), n) && fs[k].tempo.nanos - inicio.nanos == n
            &&& p >= v.toff@.len() || v.toff@[p] is None ==> fs[k].tempo.nanos - inicio.nanos == 0
            &&& fs[k].tempo.deslocamento == inicio.deslocamento
        }),
{
    let cai = no_bbox(v, ate, bbox);
    let pos = mantidos(cai, v.lat@.len());
    lei_clip(cai, v.lat@.len());
    assert(pos.contains(pos[k]));
    assert(flash_da_posicao(fs[k], v, em_nanos, inicio, pos[k]));
}

/// Entre dois flashes de um arquivo passa exatamente a diferença dos seus
/// offsets, sejam quais forem os sinais e o início do arquivo.
pub proof fn lei_diferenca_de_tempos<F, M: Fn(F, F) -> bool, S: Fn(F) -> i128>(
    fs: Seq<Flash<F>>,
    v: Variaveis<F>,
    ate: M,
    em_nanos: S,
    inicio: Momento,
    bbox: [F; 4],
    k: int,
    l: int,
) -> (n: (i128, i128))
    requires
        sao_os_mantidos(fs, v, ate, em_nanos, inicio, bbox, v.lat@.len()),
        0 <= k < fs.len(),
        0 <= l < fs.len(),
        ({
            let pos = mantidos(no_bbox(v, ate, bbox), v.lat@.len());
            &&& pos[k] < v.toff@.len() && v.toff@[pos[k]] is Some
            &&& pos[l] < v.toff@.len() && v.toff@[pos[l]] is Some
        }),
    ensures
        ({
            let pos = mantidos(no_bbox(v, ate, bbox), v.lat@.len());
            &&& em_nanos.ensures((v.toff@[pos[k]]->0,), n.0)
            &&& em_nanos.ensures((v.toff@[pos[l]]->0,), n.1)
            &&& fs[k].tempo.nanos - fs[l].tempo.nanos == n.0 - n.1
        }),
{
    lei_tempo_do_flash(fs, v, ate, em_nanos, inicio, bbox, k);
    lei_tempo_do_flash(fs, v, ate, em_nanos, inicio, bbox, l);
    let pos = mantidos(no_bbox(v, ate, bbox), v.lat@.len());
    let a = choose|n: i128| #[trigger]
        em_nanos.ensures((v.toff@[pos[k]]->0,), n) && fs[k].tempo.nanos - inicio.nanos == n;
    let b = choose|n: i128| #[trigger]
        em_nanos.ensures((v.toff@[pos[l]]->0,), n) && fs[l].tempo.nanos - inicio.nanos == n;
    (a, b)
}

/// Um arquivo mais tarde dá os mesmos flashes, todos adiantados do mesmo tanto.
/// Vale quando `em_nanos` responde sempre o mesmo.
pub proof fn lei_inicio_desloca<F, M: Fn(F, F) -> bool, S: Fn(F) -> i128>(
    fs: Seq<Flash<F>>,
    gs: Seq<Flash<F>>,
    v: Variaveis<F>,
    ate: M,
    em_nanos: S,
    a: Momento,
    b: Momento,
    bbox: [F; 4],
    k: int,
)
    requires
        sao_os_mantidos(fs, v, ate, em_nanos, a, bbox, v.lat@.len()),
        sao_os_mantidos(gs, v, ate, em_nanos, b, bbox, v.lat@.len()),
        forall|x: F, m: i128, n: i128| #[trigger]
            em_nanos.ensures((x,), m) && #[trigger] em_nanos.ensures((x,), n) ==> m == n,
        0 <= k < fs.len(),
    ensures
        fs.len() == gs.len(),
        gs[k].tempo.nanos - fs[k].tempo.nanos == b.nanos - a.nanos,
{
    lei_tempo_do_flash(fs, v, ate, em_nanos, a, bbox, k);
    lei_tempo_do_flash(gs, v, ate, em_nanos, b, bbox, k);
}

/// Toda posição que cai no BBOX tem id e qualidade.
pub open spec fn completo<F, M: Fn(F, F) -> bool>(v: Variaveis<F>, ate: M, bbox: [F; 4]) -> bool {
    forall|i: int|
        0 <= i < v.lat@.len() && dentro(ate, #[trigger] v.lat@[i], v.lon@[i], bbox) ==> i
            < v.ids@.len() && i < v.qualidade@.len()
}

/// Todo offset de um flash que cai no BBOX se converte, e o tempo que dá é
/// representável.
pub open spec fn tempos_na_faixa<F, M: Fn(F, F) -> bool, S: Fn(F) -> i128>(
    v: Variaveis<F>,
    ate: M,
    em_nanos: S,
    inicio: Momento,
    bbox: [F; 4],
) -> bool {
    forall|i: int|
        0 <= i < v.lat@.len() && dentro(ate, #[trigger] v.lat@[i], v.lon@[i], bbox) ==> (
        na_posicao(v.toff@, i) matches Some(off) ==> em_nanos.requires((off,)) && forall|n: i128|
            #[trigger] em_nanos.ensures((off,), n) ==> momento::na_faixa(inicio.local() + n))
}

/// As variáveis do arquivo cobrem todo flash que cai no BBOX? É o que
/// [`parse_flashes`] exige delas.
pub fn cobre_os_flashes<F: Copy, M: Fn(F, F) -> bool>(
    v: &Variaveis<F>,
    bbox: [F; 4],
    ate: &M,
) -> (r: bool)
    requires
        compara(*ate),
        v.lat@.len() == v.lon@.len(),
    ensures
        r == completo(*v, *ate, bbox),
{
    let n = v.lat.len();
    let mut i: usize = 0;
    while i < n
        invariant
            compara(*ate),
            n == v.lat@.len(),
            n == v.lon@.len(),
            i <= n,
            forall|j: int|
                0 <= j < i && dentro(*ate, #[trigger] v.lat@[j], v.lon@[j], bbox) ==> j
                    < v.ids@.len() && j < v.qualidade@.len(),
        decreases n - i,
    {
        if (i >= v.ids.len() || i >= v.qualidade.len()) && dentro_do_bbox(
            ate,
            v.lat[i],
            v.lon[i],
            &bbox,
        ) {
            assert(dentro(*ate, v.lat@[i as int], v.lon@[i as int], bbox));
            return false;
        }
        i = i + 1;
    }
    true
}

/// Lê os flashes de um arquivo LCFA, mantendo só os que caem no `bbox`
/// (`[oeste, sul, leste, norte]`, graus). `inicio_arquivo` é o token `s` do nome;
/// `ate(a, b)` diz se `a` não passa de `b`, e `em_nanos` converte segundos em
/// nanossegundos.
pub fn parse_flashes<F: Copy, M: Fn(F, F) -> bool, S: Fn(F) -> i128>(
    v: &Variaveis<F>,
    inicio_arquivo: Momento,
    bbox: [F; 4],
    ate: &M,
    em_nanos: &S,
) -> (r: Result<Vec<Flash<F>>, CoordenadasDivergem>)
    requires
        compara(*ate),
        inicio_arquivo.valido(),
        v.lat@.len() == v.lon@.len() ==> completo(*v, *ate, bbox),
        v.lat@.len() == v.lon@.len() ==> tempos_na_faixa(
            *v,
            *ate,
            *em_nanos,
            inicio_arquivo,
            bbox,
        ),
    ensures
        r is Err <==> v.lat@.len() != v.lon@.len(),
        match r {
            Ok(fs) => {
                &&& sao_os_mantidos(
                    fs@,
                    *v,
                    *ate,
                    *em_nanos,
                    inicio_arquivo,
                    bbox,
                    v.lat@.len(),
                )
                &&& forall|i: int|
                    0 <= i < v.lat@.len() ==> dentro(*ate, #[trigger] v.lat@[i], v.lon@[i], bbox)
                        || fora(*ate, v.lat@[i], v.lon@[i], bbox)
                &&& forall|k: int|
                    0 <= k < fs@.len() ==> {
                        &&& ate.ensures((bbox[0], (#[trigger] fs@[k]).lon), true)
                        &&& ate.ensures((fs@[k].lon, bbox[2]), true)
                        &&& ate.ensures((bbox[1], fs@[k].lat), true)
                        &&& ate.ensures((fs@[k].lat, bbox[3]), true)
                    }
            },
            Err(e) => e.lat == v.lat@.len() && e.lon == v.lon@.len(),
        },
{
    let n = v.lat.len();
    if v.lon.len() != n {
        return Err(CoordenadasDivergem { lat: n, lon: v.lon.len() });
    }
    let mut out: Vec<Flash<F>> = Vec::new();
    let mut i: usize = 0;
    while i < n
        invariant
            compara(*ate),
            inicio_arquivo.valido(),
            completo(*v, *ate, bbox),
            tempos_na_faixa(*v, *ate, *em_nanos, inicio_arquivo, bbox),
            n == v.lat@.len(),
            n == v.lon@.len(),
            i <= n,
            sao_os_mantidos(out@, *v, *ate, *em_nanos, inicio_arquivo, bbox, i as nat),
            forall|j: int|
                0 <= j < i ==> dentro(*ate, #[trigger] v.lat@[j], v.lon@[j], bbox) || fora(
                    *ate,
                    v.lat@[j],
                    v.lon@[j],
                    bbox,
                ),
        decreases n - i,
    {
        let la = v.lat[i];
        let lo = v.lon[i];
        if dentro_do_bbox(ate, la, lo, &bbox) {
            assert(no_bbox(*v, *ate, bbox)(i as int));
            let tempo = match pega(&v.toff, i) {
                Some(off) => {
                    let nanos = em_nanos(off);
                    momento::mais_nanos(&inicio_arquivo, nanos)
                },
                None => inicio_arquivo,
            };
            out.push(
                Flash {
                    flash_id: v.ids[i],
                    tempo,
                    lat: la,
                    lon: lo,
                    energia: pega(&v.energia, i),
                    area: pega(&v.area, i),
                    qualidade: v.qualidade[i],
                },
            );
        }
        i = i + 1;
    }
    proof {
        lei_flash_no_bbox(out@, *v, *ate, *em_nanos, inicio_arquivo, bbox);
    }
    Ok(out)
}

} // verus!
