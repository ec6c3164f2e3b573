//! Loop genérico de ingest: o que varrer, o que é novo, em que ordem processar
//! e o que fazer depois de cada resultado.
//!
//! A parte comum a todo coletor vive aqui: a janela de prefixos da hora UTC
//! corrente e das anteriores, a seleção das chaves novas ([`Varredura`]), a
//! sequência de produtos de uma rodada ([`Rodada`]) e as etapas da cauda de um
//! objeto ([`proxima_etapa`]). Quem executa cada ação (listar, baixar, gravar)
//! devolve aqui o resultado.

use crate::config::{Config, ProductConfig};
use crate::momento;
use crate::momento::Momento;
use crate::nodd;
use crate::ordem;
use crate::state::FrameRecord;
use crate::storage;
use crate::texto;
use vstd::hash_set::StringHashSet;
use vstd::prelude::*;

verus! {

broadcast use vstd::string::group_string_axioms;

/// Horas anteriores à corrente que um poll varre (chegadas tardias).
pub const JANELA_OVERLAP: i64 = 1;

// ---------------------------------------------------------------------------
// Janela de prefixos
// ---------------------------------------------------------------------------

/// Quantas horas uma janela que recua `hours_back` horas tem.
pub open spec fn horas_da_janela(hours_back: int) -> int {
    if hours_back < 0 {
        0
    } else {
        hours_back + 1
    }
}

/// Cada hora a mais de recuo é um prefixo a mais; recuar zero é só a hora
/// corrente, e recuo negativo não dá nenhum.
pub proof fn lei_horas_da_janela(hours_back: int)
    ensures
        horas_da_janela(0) == 1,
        hours_back >= 0 ==> horas_da_janela(hours_back + 1) == horas_da_janela(hours_back) + 1,
        hours_back >= 0 ==> horas_da_janela(hours_back) == hours_back + 1,
        hours_back < 0 ==> horas_da_janela(hours_back) == 0,
{
}

/// Os prefixos da hora corrente e das `hours_back` anteriores do produto, da
/// mais nova à mais antiga. Recuo negativo não dá prefixo algum.
pub fn prefixos(product: &ProductConfig, now: Momento, hours_back: i64) -> (r: Vec<String>)
    requires
        now.valido(),
        now.utc_valido(),
        hours_back >= 0 ==> momento::na_faixa(now.local() - hours_back * momento::NANOS_HORA),
        hours_back >= 0 ==> momento::na_faixa(now.nanos - hours_back * momento::NANOS_HORA),
    ensures
        r@.len() == horas_da_janela(hours_back as int),
        forall|h: int|
            0 <= h < r@.len() ==> #[trigger] r@[h]@ == nodd::prefixo_da_hora(
                product.source_prefix@,
                momento::hora_de(now.nanos as int) - h,
            ),
        hours_back < 0 ==> r@.len() == 0,
        hours_back >= 0 ==> r@.len() == hours_back + 1,
        forall|t: int|
            now.nanos - hours_back * momento::NANOS_HORA <= t <= now.nanos
                ==> texto::textos(r@).contains(
                #[trigger] nodd::prefixo_da_hora(product.source_prefix@, momento::hora_de(t)),
            ),
{
    let mut r: Vec<String> = Vec::new();
    let mut h: i64 = 0;
    while h <= hours_back
        invariant
            now.valido(),
            now.utc_valido(),
            hours_back >= 0 ==> momento::na_faixa(now.local() - hours_back * momento::NANOS_HORA),
            hours_back >= 0 ==> momento::na_faixa(now.nanos - hours_back * momento::NANOS_HORA),
            0 <= h,
            hours_back >= 0 ==> h <= hours_back + 1,
            hours_back < 0 ==> h == 0,
            r@.len() == h,
            forall|k: int|
                0 <= k < h ==> #[trigger] r@[k]@ == nodd::prefixo_da_hora(
                    product.source_prefix@,
                    momento::hora_de(now.nanos as int) - k,
                ),
        decreases hours_back + 1 - h,
    {
        let antes = momento::menos_horas(&now, h);
        assert(momento::hora_de(antes.nanos as int) == momento::hora_de(now.nanos as int) - h);
        r.push(nodd::source_hour_prefix(product, antes));
        h = h + 1;
    }
    assert forall|t: int|
        now.nanos - hours_back * momento::NANOS_HORA <= t <= now.nanos
        implies texto::textos(r@).contains(
        #[trigger] nodd::prefixo_da_hora(product.source_prefix@, momento::hora_de(t)),
    ) by {
        let k = momento::hora_de(now.nanos as int) - momento::hora_de(t);
        lema_horas_entre(now.nanos as int, t, hours_back as int);
        assert(r@[k]@ == nodd::prefixo_da_hora(product.source_prefix@, momento::hora_de(t)));
        assert(texto::textos(r@)[k] == r@[k]@);
    }
    r
}

/// Um instante no máximo `n` horas antes de outro está no máximo `n` horas
/// cheias antes.
proof fn lema_horas_entre(agora: int, t: int, n: int)
    requires
        agora - n * momento::NANOS_HORA <= t <= agora,
    ensures
        0 <= momento::hora_de(agora) - momento::hora_de(t) <= n,
{
}

/// Os caminhos a listar na origem: os dos prefixos da janela, na mesma ordem.
pub fn caminhos_da_janela(
    product: &ProductConfig,
    now: Momento,
    hours_back: i64,
) -> (r: Vec<String>)
    requires
        now.valido(),
        now.utc_valido(),
        hours_back >= 0 ==> momento::na_faixa(now.local() - hours_back * momento::NANOS_HORA),
        hours_back >= 0 ==> momento::na_faixa(now.nanos - hours_back * momento::NANOS_HORA),
    ensures
        r@.len() == horas_da_janela(hours_back as int),
        forall|h: int|
            0 <= h < r@.len() ==> #[trigger] r@[h]@ == storage::caminho_codificado(
                nodd::prefixo_da_hora(
                    product.source_prefix@,
                    momento::hora_de(now.nanos as int) - h,
                ),
            ),
        hours_back < 0 ==> r@.len() == 0,
        hours_back >= 0 ==> r@.len() == hours_back + 1,
        forall|t: int|
            now.nanos - hours_back * momento::NANOS_HORA <= t <= now.nanos
                ==> texto::textos(r@).contains(
                storage::caminho_codificado(
                    #[trigger] nodd::prefixo_da_hora(product.source_prefix@, momento::hora_de(t)),
                ),
            ),
{
    let p = prefixos(product, now, hours_back);
    let mut r: Vec<String> = Vec::new();
    let mut i: usize = 0;
    while i < p.len()
        invariant
            i <= p@.len(),
            r@.len() == i,
            forall|h: int|
                0 <= h < p@.len() ==> #[trigger] p@[h]@ == nodd::prefixo_da_hora(
                    product.source_prefix@,
                    momento::hora_de(now.nanos as int) - h,
                ),
            forall|h: int|
                0 <= h < i ==> #[trigger] r@[h]@ == storage::caminho_codificado(
                    nodd::prefixo_da_hora(
                        product.source_prefix@,
                        momento::hora_de(now.nanos as int) - h,
                    ),
                ),
        decreases p@.len() - i,
    {
        assert(p@[i as int]@ == nodd::prefixo_da_hora(
            product.source_prefix@,
            momento::hora_de(now.nanos as int) - i,
        ));
        r.push(storage::caminho(p[i].as_str()));
        i = i + 1;
    }
    assert forall|t: int|
        now.nanos - hours_back * momento::NANOS_HORA <= t <= now.nanos
        implies texto::textos(r@).contains(
        storage::caminho_codificado(
            #[trigger] nodd::prefixo_da_hora(product.source_prefix@, momento::hora_de(t)),
        ),
    ) by {
        let k = momento::hora_de(now.nanos as int) - momento::hora_de(t);
        lema_horas_entre(now.nanos as int, t, hours_back as int);
        assert(r@[k]@ == storage::caminho_codificado(
            nodd::prefixo_da_hora(product.source_prefix@, momento::hora_de(t)),
        ));
        assert(texto::textos(r@)[k] == r@[k]@);
    }
    r
}

/// A janela não repete prefixo: nenhuma hora é listada duas vezes.
pub proof fn lei_janela_sem_repeticao(source_prefix: Seq<char>, hora: int, i: int, j: int)
    requires
        i != j,
    ensures
        nodd::prefixo_da_hora(source_prefix, hora - i) != nodd::prefixo_da_hora(
            source_prefix,
            hora - j,
        ),
{
    if nodd::prefixo_da_hora(source_prefix, hora - i) == nodd::prefixo_da_hora(
        source_prefix,
        hora - j,
    ) {
        nodd::lei_prefixos_distintos(source_prefix, hora - i, hora - j);
    }
}

// ---------------------------------------------------------------------------
// Seleção das chaves novas
// ---------------------------------------------------------------------------

/// O trecho que o nome de um objeto do canal traz: `<canal>_G19`.
pub open spec fn agulha_do_canal(canal: Option<String>) -> Option<Seq<char>> {
    match canal {
        Some(c) => Some(c@ + "_G19"@),
        None => None,
    }
}

/// A chave é do canal procurado (sem canal, toda chave é).
pub open spec fn do_canal(agulha: Option<Seq<char>>, chave: Seq<char>) -> bool {
    match agulha {
        Some(n) => texto::contem(chave, n),
        None => true,
    }
}

/// O filtro de canal: uma chave é do canal `c` exatamente se nela há, seguidos,
/// o texto `c` inteiro e `_G19`. Em particular, a chave em que `c` não ocorre
/// não é do canal.
pub proof fn lei_canal(c: String, chave: Seq<char>)
    ensures
        do_canal(agulha_do_canal(Some(c)), chave) <==> exists|i: int|
            0 <= i <= chave.len() - (c@.len() + 4) && chave.subrange(i, i + c@.len()) == c@
                && #[trigger] chave.subrange(i + c@.len(), i + c@.len() + 4) == "_G19"@,
        (forall|i: int|
            0 <= i <= chave.len() - c@.len() ==> #[trigger] chave.subrange(i, i + c@.len())
                != c@) ==> !do_canal(agulha_do_canal(Some(c)), chave),
        do_canal(agulha_do_canal(None), chave),
{
    reveal_strlit("_G19");
    let n = c@ + "_G19"@;
    let k = c@.len() as int;
    if do_canal(agulha_do_canal(Some(c)), chave) {
        let i = choose|i: int| texto::ocorre_em(chave, n, i);
        let t = chave.subrange(i, i + n.len());
        assert(t == n);
        assert(chave.subrange(i, i + k) =~= t.subrange(0, k));
        assert(n.subrange(0, k) =~= c@);
        assert(chave.subrange(i + k, i + k + 4) =~= t.subrange(k, k + 4));
        assert(n.subrange(k, k + 4) =~= "_G19"@);
    }
    if exists|i: int|
        0 <= i <= chave.len() - (k + 4) && chave.subrange(i, i + k) == c@
            && #[trigger] chave.subrange(i + k, i + k + 4) == "_G19"@ {
        let i = choose|i: int|
            0 <= i <= chave.len() - (k + 4) && chave.subrange(i, i + k) == c@
                && #[trigger] chave.subrange(i + k, i + k + 4) == "_G19"@;
        assert(chave.subrange(i, i + n.len()) =~= chave.subrange(i, i + k) + chave.subrange(
            i + k,
            i + k + 4,
        ));
        assert(texto::ocorre_em(chave, n, i));
    }
}

/// As chaves escolhidas depois de a origem oferecer mais uma: entra se é do
/// canal, ainda não foi processada e não apareceu antes nesta varredura.
pub open spec fn apos_oferta(
    agulha: Option<Seq<char>>,
    chaves: Seq<Seq<char>>,
    chave: Seq<char>,
    feita: bool,
) -> Seq<Seq<char>> {
    if do_canal(agulha, chave) && !feita && !chaves.contains(chave) {
        chaves.push(chave)
    } else {
        chaves
    }
}

/// As chaves escolhidas depois de uma sequência de ofertas. Cada oferta traz a
/// chave listada e se o catálogo já a tem.
pub open spec fn varre(
    agulha: Option<Seq<char>>,
    ofertas: Seq<(Seq<char>, bool)>,
) -> Seq<Seq<char>>
    decreases ofertas.len(),
{
    if ofertas.len() == 0 {
        Seq::<Seq<char>>::empty()
    } else {
        apos_oferta(
            agulha,
            varre(agulha, ofertas.drop_last()),
            ofertas.last().0,
            ofertas.last().1,
        )
    }
}

/// Quantas chaves cabem num limite (0 = sem limite).
pub open spec fn cabem(total: int, limit: int) -> int {
    if limit > 0 && total > limit {
        limit
    } else {
        total
    }
}

/// `r` são as primeiras chaves de `chaves`, na ordem, até o limite.
pub open spec fn primeiras(chaves: Seq<Seq<char>>, limit: int, r: Seq<Seq<char>>) -> bool {
    &&& r.len() == cabem(chaves.len() as int, limit)
    &&& ordem::ordenada(r)
    &&& r.no_duplicates()
    &&& forall|i: int| 0 <= i < r.len() ==> chaves.contains(#[trigger] r[i])
    &&& forall|i: int, j: int|
        0 <= i < r.len() && 0 <= j < chaves.len() && !r.contains(#[trigger] chaves[j])
            ==> ordem::ate(#[trigger] r[i], chaves[j])
}

/// Varredura da origem por um produto: acumula as chaves novas, sem repetir.
pub struct Varredura {
    agulha: Option<String>,
    chaves: Vec<String>,
    vistas: StringHashSet,
}

impl Varredura {
    /// O trecho procurado nas chaves.
    pub closed spec fn agulha(self) -> Option<Seq<char>> {
        match self.agulha {
            Some(n) => Some(n@),
            None => None,
        }
    }

    /// As chaves escolhidas até aqui, na ordem em que apareceram.
    pub closed spec fn chaves(self) -> Seq<Seq<char>> {
        texto::textos(self.chaves@)
    }

    /// As chaves escolhidas são todas diferentes, e são as vistas.
    pub closed spec fn coerente(self) -> bool {
        &&& self.chaves().no_duplicates()
        &&& forall|k: Seq<char>| self.vistas@.contains(k) <==> #[trigger] self.chaves().contains(k)
    }

    /// Começa uma varredura. O filtro de canal procura `<canal>_G19` na chave
    /// (ex.: M6C13_G19); sem canal, não há filtro.
    pub fn nova(product: &ProductConfig) -> (r: Varredura)
        ensures
            r.coerente(),
            r.agulha() == agulha_do_canal(product.channel),
            r.chaves() == Seq::<Seq<char>>::empty(),
            product.channel is None ==> forall|chave: Seq<char>| #[trigger]
                do_canal(r.agulha(), chave),
            product.channel matches Some(c) ==> forall|chave: Seq<char>| #[trigger]
                do_canal(r.agulha(), chave) <==> exists|i: int|
                    0 <= i <= chave.len() - (c@.len() + 4) && chave.subrange(
                        i,
                        i + c@.len(),
                    ) == c@ && #[trigger] chave.subrange(i + c@.len(), i + c@.len() + 4)
                        == "_G19"@,
    {
        let agulha = match &product.channel {
            Some(c) => {
                let mut n = c.clone();
                n.append("_G19");
                Some(n)
            },
            None => None,
        };
        let r = Varredura { agulha, chaves: Vec::new(), vistas: StringHashSet::new() };
        assert(r.chaves() =~= Seq::<Seq<char>>::empty());
        proof {
            if product.channel is Some {
                assert forall|chave: Seq<char>| #[trigger] do_canal(
                    r.agulha(),
                    chave,
                ) <==> exists|i: int|
                    0 <= i <= chave.len() - (product.channel->0@.len() + 4) && chave.subrange(
                        i,
                        i + product.channel->0@.len(),
                    ) == product.channel->0@ && #[trigger] chave.subrange(
                        i + product.channel->0@.len(),
                        i + product.channel->0@.len() + 4,
                    ) == "_G19"@ by {
                    lei_canal(product.channel->0, chave);
                }
            }
        }
        r
    }

    /// A chave é do canal procurado? Só dessas se pergunta ao catálogo.
    pub fn casa(&self, chave: &str) -> (r: bool)
        ensures
            r == do_canal(self.agulha(), chave@),
    {
        match &self.agulha {
            Some(n) => texto::tem(chave, n.as_str()),
            None => true,
        }
    }

    /// Registra uma chave do canal, com a resposta do catálogo.
    pub fn registra(&mut self, chave: String, feita: bool)
        requires
            old(self).coerente(),
            do_canal(old(self).agulha(), chave@),
        ensures
            final(self).coerente(),
            final(self).agulha() == old(self).agulha(),
            final(self).chaves() == apos_oferta(
                old(self).agulha(),
                old(self).chaves(),
                chave@,
                feita,
            ),
            forall|k: Seq<char>| #[trigger]
                final(self).chaves().contains(k) <==> old(self).chaves().contains(k) || (!feita && k
                    == chave@),
    {
        if feita {
            return;
        }
        let ghost antes = self.chaves();
        if self.vistas.insert(chave.clone()) {
            self.chaves.push(chave);
            let ghost agora = self.chaves();
            assert(agora =~= antes.push(chave@));
            assert(!antes.contains(chave@));
            assert forall|i: int, j: int|
                0 <= i < agora.len() && 0 <= j < agora.len() && i != j implies agora[i]
                != agora[j] by {
                if i < antes.len() {
                    assert(antes.contains(antes[i]));
                }
                if j < antes.len() {
                    assert(antes.contains(antes[j]));
                }
            }
            assert forall|k: Seq<char>| self.vistas@.contains(k) <==> #[trigger] agora.contains(
                k,
            ) by {
                if antes.contains(k) {
                    let i = choose|i: int| 0 <= i < antes.len() && antes[i] == k;
                    assert(agora[i] == k);
                }
                if k == chave@ {
                    assert(agora[antes.len() as int] == k);
                }
                if agora.contains(k) && k != chave@ {
                    let i = choose|i: int| 0 <= i < agora.len() && agora[i] == k;
                    assert(antes[i] == k);
                }
            }
        } else {
            assert(self.vistas@ =~= old(self).vistas@);
            assert(self.chaves() == antes);
            assert(antes.contains(chave@));
        }
    }

    /// Fecha a varredura: as chaves novas em ordem (≈ cronológica, pois o nome
    /// começa pelo timestamp), até `limit` delas (0 = todas).
    pub fn fecha(&self, limit: usize) -> (r: Vec<String>)
        requires
            self.coerente(),
        ensures
            primeiras(self.chaves(), limit as int, texto::textos(r@)),
    {
        let ghost c = self.chaves();
        let mut r = ordem::ordena(&self.chaves);
        let ghost todas = texto::textos(r@);
        proof {
            lema_ordenadas_as_mesmas(c, todas);
        }
        if limit > 0 && r.len() > limit {
            r.truncate(limit);
        }
        let ghost t = texto::textos(r@);
        assert(t =~= todas.take(t.len() as int));
        assert forall|i: int| 0 <= i < t.len() implies c.contains(#[trigger] t[i]) by {
            assert(todas.contains(todas[i]));
        }
        assert forall|i: int, j: int|
            0 <= i < t.len() && 0 <= j < c.len() && !t.contains(#[trigger] c[j])
            implies ordem::ate(#[trigger] t[i], c[j]) by {
            assert(c.contains(c[j]));
            assert(todas.contains(c[j]));
            let k = choose|k: int| 0 <= k < todas.len() && todas[k] == c[j];
            if k < t.len() {
                assert(t[k] == c[j]);
            }
            assert(ordem::ate(todas[i], todas[k]));
        }
        r
    }
}

/// Ordenar não cria, não perde e não repete chaves.
proof fn lema_ordenadas_as_mesmas(a: Seq<Seq<char>>, b: Seq<Seq<char>>)
    requires
        a.no_duplicates(),
        a.to_multiset() == b.to_multiset(),
    ensures
        b.no_duplicates(),
        a.len() == b.len(),
        forall|k: Seq<char>| a.contains(k) <==> #[trigger] b.contains(k),
{
    vstd::seq_lib::to_multiset_len(a);
    vstd::seq_lib::to_multiset_len(b);
    assert forall|k: Seq<char>| a.contains(k) <==> #[trigger] b.contains(k) by {
        vstd::seq_lib::to_multiset_contains(a, k);
        vstd::seq_lib::to_multiset_contains(b, k);
    }
    a.lemma_multiset_has_no_duplicates();
    b.lemma_multiset_has_no_duplicates_conv();
}

/// O que uma varredura escolhe: exatamente as chaves do canal que a origem
/// ofereceu ainda por processar, cada uma uma vez.
pub proof fn lei_varredura(agulha: Option<Seq<char>>, ofertas: Seq<(Seq<char>, bool)>)
    ensures
        varre(agulha, ofertas).no_duplicates(),
        forall|k: Seq<char>| #[trigger]
            varre(agulha, ofertas).contains(k) <==> do_canal(agulha, k) && ofertas.contains(
                (k, false),
            ),
    decreases ofertas.len(),
{
    if ofertas.len() > 0 {
        let ult = ofertas.last();
        let antes = varre(agulha, ofertas.drop_last());
        let agora = varre(agulha, ofertas);
        lei_varredura(agulha, ofertas.drop_last());
        assert forall|k: Seq<char>| #[trigger] agora.contains(k) <==> do_canal(agulha, k)
            && ofertas.contains((k, false)) by {
            if antes.contains(k) {
                let i = choose|i: int|
                    0 <= i < ofertas.drop_last().len() && ofertas.drop_last()[i] == (k, false);
                assert(ofertas[i] == (k, false));
                let n = choose|n: int| 0 <= n < antes.len() && antes[n] == k;
                assert(agora[n] == k);
            }
            if ofertas.contains((k, false)) && do_canal(agulha, k) {
                let i = choose|i: int| 0 <= i < ofertas.len() && ofertas[i] == (k, false);
                if i < ofertas.len() - 1 {
                    assert(ofertas.drop_last()[i] == (k, false));
                    assert(antes.contains(k));
                } else if !antes.contains(k) {
                    assert(agora[antes.len() as int] == k);
                }
            }
            if agora.contains(k) && !antes.contains(k) {
                let n = choose|n: int| 0 <= n < agora.len() && agora[n] == k;
                if n < antes.len() {
                    assert(antes[n] == k);
                }
                assert(ofertas[ofertas.len() - 1] == (k, false));
            }
        }
    }
}

/// O que um poll processa: só chaves do canal que a origem ofereceu por
/// processar, cada uma uma vez, em ordem; todas elas, se não há limite ou se
/// cabem nele. As que o limite deixa para depois vêm depois das escolhidas.
pub proof fn lei_poll(
    agulha: Option<Seq<char>>,
    ofertas: Seq<(Seq<char>, bool)>,
    limit: int,
    r: Seq<Seq<char>>,
)
    requires
        primeiras(varre(agulha, ofertas), limit, r),
    ensures
        ordem::ordenada(r),
        r.no_duplicates(),
        forall|i: int|
            0 <= i < r.len() ==> do_canal(agulha, #[trigger] r[i]) && ofertas.contains(
                (r[i], false),
            ),
        limit > 0 ==> r.len() <= limit,
        limit <= 0 || r.len() < limit ==> forall|k: Seq<char>|
            do_canal(agulha, k) && #[trigger] ofertas.contains((k, false)) ==> r.contains(k),
        forall|i: int, j: int| 0 <= i < j < r.len() ==> ordem::ate(#[trigger] r[i], #[trigger] r[j]),
        forall|k: Seq<char>, i: int|
            do_canal(agulha, k) && #[trigger] ofertas.contains((k, false)) && !r.contains(k) && 0
                <= i < r.len() ==> ordem::ate(#[trigger] r[i], k),
{
    let c = varre(agulha, ofertas);
    lei_varredura(agulha, ofertas);
    assert forall|k: Seq<char>, i: int|
        do_canal(agulha, k) && #[trigger] ofertas.contains((k, false)) && !r.contains(k) && 0 <= i
            < r.len() implies ordem::ate(#[trigger] r[i], k) by {
        assert(c.contains(k));
        let j = choose|j: int| 0 <= j < c.len() && c[j] == k;
        assert(!r.contains(c[j]));
    }
    assert forall|i: int| 0 <= i < r.len() implies do_canal(agulha, #[trigger] r[i])
        && ofertas.contains((r[i], false)) by {
        assert(c.contains(r[i]));
    }
    if limit <= 0 || r.len() < limit {
        assert(r.len() == c.len());
        r.unique_seq_to_set();
        c.unique_seq_to_set();
        assert(r.to_set().subset_of(c.to_set())) by {
            assert forall|k: Seq<char>| r.to_set().contains(k) implies c.to_set().contains(k) by {
                let i = choose|i: int| 0 <= i < r.len() && r[i] == k;
                assert(c.contains(r[i]));
            }
        }
        vstd::seq_lib::seq_to_set_is_finite(c);
        vstd::set_lib::lemma_subset_equality(r.to_set(), c.to_set());
        assert forall|k: Seq<char>|
            do_canal(agulha, k) && #[trigger] ofertas.contains((k, false)) implies r.contains(
            k,
        ) by {
            assert(c.contains(k));
            assert(c.to_set().contains(k));
            assert(r.to_set().contains(k));
        }
    }
}

/// O que um poll de um produto processa: toda chave escolhida foi oferecida por
/// processar e, se o produto tem canal, traz o canal inteiro seguido de `_G19`.
pub proof fn lei_poll_do_produto(
    product: ProductConfig,
    ofertas: Seq<(Seq<char>, bool)>,
    limit: int,
    r: Seq<Seq<char>>,
    k: int,
)
    requires
        primeiras(varre(agulha_do_canal(product.channel), ofertas), limit, r),
        0 <= k < r.len(),
    ensures
        ofertas.contains((r[k], false)),
        product.channel matches Some(c) ==> exists|i: int|
            0 <= i <= r[k].len() - (c@.len() + 4) && r[k].subrange(i, i + c@.len()) == c@
                && #[trigger] r[k].subrange(i + c@.len(), i + c@.len() + 4) == "_G19"@,
{
    lei_poll(agulha_do_canal(product.channel), ofertas, limit, r);
    if product.channel is Some {
        lei_canal(product.channel->0, r[k]);
    }
}

// ---------------------------------------------------------------------------
// A rodada de produtos
// ---------------------------------------------------------------------------

/// Segundos até o próximo poll: o menor intervalo dos produtos, ou 120 se não
/// há produto.
pub open spec fn espera_de(products: Seq<ProductConfig>) -> u64
    decreases products.len(),
{
    if products.len() == 0 {
        120
    } else {
        let p = products.last().poll_interval_secs;
        let antes = espera_de(products.drop_last());
        if products.len() > 1 && antes < p {
            antes
        } else {
            p
        }
    }
}

/// Segundos a aguardar entre dois polls.
pub fn espera(products: &Vec<ProductConfig>) -> (r: u64)
    ensures
        r == espera_de(products@),
        products@.len() == 0 ==> r == 120,
        forall|i: int|
            0 <= i < products@.len() ==> r <= (#[trigger] products@[i]).poll_interval_secs,
        products@.len() > 0 ==> exists|i: int|
            0 <= i < products@.len() && (#[trigger] products@[i]).poll_interval_secs == r,
{
    let mut menor: u64 = 120;
    let mut i: usize = 0;
    while i < products.len()
        invariant
            i <= products@.len(),
            menor == espera_de(products@.take(i as int)),
        decreases products@.len() - i,
    {
        let p = products[i].poll_interval_secs;
        proof {
            let t = products@.take(i + 1);
            assert(t.drop_last() =~= products@.take(i as int));
            assert(t.last() == products@[i as int]);
        }
        if i == 0 || p <= menor {
            menor = p;
        }
        i = i + 1;
    }
    assert(products@.take(i as int) =~= products@);
    proof {
        if products@.len() > 0 {
            lei_espera_minima(products@);
        }
    }
    menor
}

/// A espera atende ao produto mais frequente: é o intervalo de algum produto, e
/// nenhum produto tem intervalo menor.
pub proof fn lei_espera_minima(products: Seq<ProductConfig>)
    requires
        products.len() > 0,
    ensures
        exists|i: int|
            0 <= i < products.len() && (#[trigger] products[i]).poll_interval_secs == espera_de(
                products,
            ),
        forall|i: int|
            0 <= i < products.len() ==> espera_de(products) <= (
            #[trigger] products[i]).poll_interval_secs,
    decreases products.len(),
{
    let n = products.len() as int;
    let antes = products.drop_last();
    assert(products[n - 1] == products.last());
    if n > 1 {
        lei_espera_minima(antes);
        let k = choose|i: int|
            0 <= i < antes.len() && (#[trigger] antes[i]).poll_interval_secs == espera_de(antes);
        assert(products[k] == antes[k]);
        assert forall|i: int| 0 <= i < n implies espera_de(products) <= (
        #[trigger] products[i]).poll_interval_secs by {
            if i < n - 1 {
                assert(antes[i] == products[i]);
            }
        }
    }
}

/// O que o loop de ingest faz a seguir.
#[derive(Clone, Copy, Debug, PartialEq, Eq, Structural)]
pub enum Passo {
    /// Constrói o client da origem e cria o diretório de trabalho.
    AbrirOrigem,
    /// Abre o estado persistente (catálogo e cache).
    AbrirEstado,
    /// Falta a seção `[database]`: termina com erro.
    Recusar,
    /// Lê o relógio: o instante vale para a rodada toda.
    LerRelogio,
    /// Varre a origem pelo produto desta posição e processa o que for novo. O
    /// resultado não muda o passo seguinte: uma falha aqui não impede os outros
    /// produtos.
    Varrer(usize),
    /// Dorme até a próxima rodada.
    Aguardar(u64),
    /// Termina bem.
    Encerrar,
}

/// Onde o loop de ingest está.
#[derive(Clone, Copy, Debug, PartialEq, Eq, Structural)]
pub struct Rodada {
    /// A origem já foi aberta.
    pub origem: bool,
    /// O estado persistente já foi aberto.
    pub estado: bool,
    /// O relógio desta rodada já foi lido.
    pub com_relogio: bool,
    /// O próximo produto a varrer.
    pub proximo: usize,
}

/// O loop antes do primeiro passo.
pub open spec fn rodada_nova() -> Rodada {
    Rodada { origem: false, estado: false, com_relogio: false, proximo: 0 }
}

/// O começo de uma rodada, já com tudo aberto.
pub open spec fn rodada_aberta() -> Rodada {
    Rodada { origem: true, estado: true, com_relogio: false, proximo: 0 }
}

/// O passo que se dá em `s`, e onde o loop fica.
pub open spec fn avanca(s: Rodada, config: Config, once: bool) -> (Passo, Rodada) {
    if config.products@.len() == 0 {
        (Passo::Encerrar, s)
    } else if !s.origem {
        (Passo::AbrirOrigem, Rodada { origem: true, ..s })
    } else if !s.estado {
        if config.database is None {
            (Passo::Recusar, s)
        } else {
            (Passo::AbrirEstado, Rodada { estado: true, ..s })
        }
    } else if !s.com_relogio {
        (Passo::LerRelogio, Rodada { com_relogio: true, ..s })
    } else if s.proximo < config.products@.len() {
        (
            Passo::Varrer(s.proximo),
            Rodada { proximo: (s.proximo + 1) as usize, ..s },
        )
    } else if once {
        (Passo::Encerrar, s)
    } else {
        (Passo::Aguardar(espera_de(config.products@)), rodada_aberta())
    }
}

/// Onde o loop fica depois de `n` passos.
pub open spec fn apos_passos(s: Rodada, config: Config, once: bool, n: nat) -> Rodada
    decreases n,
{
    if n == 0 {
        s
    } else {
        avanca(apos_passos(s, config, once, (n - 1) as nat), config, once).1
    }
}

impl Rodada {
    /// O loop antes do primeiro passo.
    pub fn nova() -> (r: Rodada)
        ensures
            r == rodada_nova(),
    {
        Rodada { origem: false, estado: false, com_relogio: false, proximo: 0 }
    }

    /// Dá um passo. `once` faz uma única rodada e encerra (é também o caso do
    /// backfill); sem produto configurado, encerra de saída, sem abrir nada; com
    /// produto e sem banco, recusa.
    pub fn passo(&mut self, config: &Config, once: bool) -> (r: Passo)
        ensures
            (r, *final(self)) == avanca(*old(self), *config, once),
    {
        let n = config.products.len();
        if n == 0 {
            return Passo::Encerrar;
        }
        if !self.origem {
            self.origem = true;
            return Passo::AbrirOrigem;
        }
        if !self.estado {
            if config.database.is_none() {
                return Passo::Recusar;
            }
            self.estado = true;
            return Passo::AbrirEstado;
        }
        if !self.com_relogio {
            self.com_relogio = true;
            return Passo::LerRelogio;
        }
        if self.proximo < n {
            let atual = self.proximo;
            self.proximo = atual + 1;
            return Passo::Varrer(atual);
        }
        if once {
            return Passo::Encerrar;
        }
        self.com_relogio = false;
        self.proximo = 0;
        Passo::Aguardar(espera(&config.products))
    }
}

/// Sem produto configurado, o loop termina bem a cada passo e nunca abre nada,
/// haja banco ou não.
pub proof fn lei_sem_produto(config: Config, once: bool, n: nat)
    requires
        config.products@.len() == 0,
    ensures
        avanca(apos_passos(rodada_nova(), config, once, n), config, once).0 == Passo::Encerrar,
{
}

/// Com produto e sem a seção `[database]`, o loop abre a origem e recusa: não
/// abre o estado e não varre produto algum.
pub proof fn lei_sem_banco(config: Config, once: bool, n: nat)
    requires
        config.products@.len() > 0,
        config.database is None,
    ensures
        avanca(apos_passos(rodada_nova(), config, once, n), config, once).0 == (if n == 0 {
            Passo::AbrirOrigem
        } else {
            Passo::Recusar
        }),
{
    if n > 0 {
        lema_recusa(config, once, n);
    }
}

/// Sem banco, o loop não passa da origem.
proof fn lema_recusa(config: Config, once: bool, n: nat)
    requires
        config.products@.len() > 0,
        config.database is None,
        n > 0,
    ensures
        apos_passos(rodada_nova(), config, once, n) == (Rodada { origem: true, ..rodada_nova() }),
    decreases n,
{
    if n > 1 {
        lema_recusa(config, once, (n - 1) as nat);
    } else {
        assert(apos_passos(rodada_nova(), config, once, 0) == rodada_nova());
    }
}

/// Com produto e banco, o loop abre a origem, abre o estado e começa a rodada.
pub proof fn lei_abre_antes(config: Config, once: bool)
    requires
        config.products@.len() > 0,
        config.database is Some,
    ensures
        avanca(rodada_nova(), config, once).0 == Passo::AbrirOrigem,
        avanca(avanca(rodada_nova(), config, once).1, config, once) == (
            Passo::AbrirEstado,
            rodada_aberta(),
        ),
{
}

/// Uma rodada: lê o relógio, varre cada produto uma vez e na ordem da
/// configuração; depois encerra (`once`) ou aguarda e recomeça do mesmo ponto.
pub proof fn lei_rodada(config: Config, once: bool, k: nat)
    requires
        0 < config.products@.len() <= usize::MAX,
        k <= config.products@.len() + 1,
    ensures
        avanca(apos_passos(rodada_aberta(), config, once, k), config, once).0 == (if k == 0 {
            Passo::LerRelogio
        } else if k <= config.products@.len() {
            Passo::Varrer((k - 1) as usize)
        } else if once {
            Passo::Encerrar
        } else {
            Passo::Aguardar(espera_de(config.products@))
        }),
        k == config.products@.len() + 1 && !once ==> apos_passos(
            rodada_aberta(),
            config,
            once,
            k + 1,
        ) == rodada_aberta(),
{
    lema_estado_da_rodada(config, once, k);
}

/// O estado depois de `k` passos de uma rodada.
proof fn lema_estado_da_rodada(config: Config, once: bool, k: nat)
    requires
        0 < config.products@.len() <= usize::MAX,
        k <= config.products@.len() + 1,
    ensures
        apos_passos(rodada_aberta(), config, once, k) == (if k == 0 {
            rodada_aberta()
        } else {
            Rodada { com_relogio: true, proximo: (k - 1) as usize, ..rodada_aberta() }
        }),
    decreases k,
{
    if k > 0 {
        lema_estado_da_rodada(config, once, (k - 1) as nat);
    }
}

/// O loop que encerrou fica encerrado: nenhum passo posterior varre de novo.
pub proof fn lei_encerrado(s: Rodada, config: Config, once: bool)
    requires
        avanca(s, config, once).0 == Passo::Encerrar,
    ensures
        avanca(avanca(s, config, once).1, config, once).0 == Passo::Encerrar,
{
}

// ---------------------------------------------------------------------------
// O poll de um produto
// ---------------------------------------------------------------------------

/// Onde o poll de um produto está.
#[derive(Clone, Copy, Debug, PartialEq, Eq, Structural)]
pub enum EtapaPoll {
    /// Lista o caminho desta posição e oferece à [`Varredura`] o que vier.
    Listar(usize),
    /// Fecha a varredura: quais chaves processar.
    Selecionar,
    /// Processa a chave desta posição.
    Processar(usize),
    /// O poll terminou.
    Concluir,
    /// A listagem falhou: o poll termina com erro, sem processar nada.
    Falhar,
}

/// A listagem da posição `i`, ou a seleção se já foram todas.
pub open spec fn listar_ou_selecionar(i: int, caminhos: int) -> EtapaPoll {
    if i < caminhos {
        EtapaPoll::Listar(i as usize)
    } else {
        EtapaPoll::Selecionar
    }
}

/// O processamento da posição `j`, ou o fim se já foram todas.
pub open spec fn processar_ou_concluir(j: int, chaves: int) -> EtapaPoll {
    if j < chaves {
        EtapaPoll::Processar(j as usize)
    } else {
        EtapaPoll::Concluir
    }
}

/// A etapa que segue `e`, conforme ela deu certo ou não. Uma listagem que falha
/// encerra o poll; uma chave que falha fica para o próximo poll e não impede as
/// seguintes.
pub open spec fn poll_seguinte(e: EtapaPoll, caminhos: int, chaves: int, ok: bool) -> EtapaPoll {
    match e {
        EtapaPoll::Listar(i) => if ok {
            listar_ou_selecionar(i + 1, caminhos)
        } else {
            EtapaPoll::Falhar
        },
        EtapaPoll::Selecionar => processar_ou_concluir(0, chaves),
        EtapaPoll::Processar(j) => processar_ou_concluir(j + 1, chaves),
        EtapaPoll::Concluir => EtapaPoll::Concluir,
        EtapaPoll::Falhar => EtapaPoll::Falhar,
    }
}

/// A primeira etapa de um poll de `caminhos` caminhos.
pub fn inicio_do_poll(caminhos: usize) -> (r: EtapaPoll)
    ensures
        r == listar_ou_selecionar(0, caminhos as int),
{
    if caminhos > 0 {
        EtapaPoll::Listar(0)
    } else {
        EtapaPoll::Selecionar
    }
}

/// A próxima etapa de um poll de `caminhos` caminhos e, feita a seleção, de
/// `chaves` chaves.
pub fn proxima_etapa_do_poll(e: EtapaPoll, caminhos: usize, chaves: usize, ok: bool) -> (r: EtapaPoll)
    ensures
        r == poll_seguinte(e, caminhos as int, chaves as int, ok),
{
    match e {
        EtapaPoll::Listar(i) => if !ok {
            EtapaPoll::Falhar
        } else if i < caminhos && i + 1 < caminhos {
            EtapaPoll::Listar(i + 1)
        } else {
            EtapaPoll::Selecionar
        },
        EtapaPoll::Selecionar => if chaves > 0 {
            EtapaPoll::Processar(0)
        } else {
            EtapaPoll::Concluir
        },
        EtapaPoll::Processar(j) => if j < chaves && j + 1 < chaves {
            EtapaPoll::Processar(j + 1)
        } else {
            EtapaPoll::Concluir
        },
        EtapaPoll::Concluir => EtapaPoll::Concluir,
        EtapaPoll::Falhar => EtapaPoll::Falhar,
    }
}

/// A etapa em que o poll está depois de `n` etapas, se a de ordem `i` terminou
/// como `oks(i)`.
pub open spec fn etapa_do_poll(
    caminhos: nat,
    chaves: nat,
    oks: spec_fn(nat) -> bool,
    n: nat,
) -> EtapaPoll
    decreases n,
{
    if n == 0 {
        listar_ou_selecionar(0, caminhos as int)
    } else {
        poll_seguinte(
            etapa_do_poll(caminhos, chaves, oks, (n - 1) as nat),
            caminhos as int,
            chaves as int,
            oks((n - 1) as nat),
        )
    }
}

/// Um poll cujas listagens dão certo lista cada caminho uma vez, na ordem,
/// seleciona, processa cada chave uma vez, na ordem, e conclui, falhem ou não as
/// chaves.
pub proof fn lei_poll_processa_tudo(
    caminhos: nat,
    chaves: nat,
    oks: spec_fn(nat) -> bool,
    n: nat,
)
    requires
        caminhos <= usize::MAX,
        chaves <= usize::MAX,
        forall|i: nat| i < caminhos ==> #[trigger] oks(i),
    ensures
        etapa_do_poll(caminhos, chaves, oks, n) == (if n < caminhos {
            EtapaPoll::Listar(n as usize)
        } else if n == caminhos {
            EtapaPoll::Selecionar
        } else if n <= caminhos + chaves {
            EtapaPoll::Processar((n - caminhos - 1) as usize)
        } else {
            EtapaPoll::Concluir
        }),
    decreases n,
{
    if n > 0 {
        let m = (n - 1) as nat;
        lei_poll_processa_tudo(caminhos, chaves, oks, m);
        assert(m < caminhos ==> oks(m));
    }
}

/// Uma listagem que falha encerra o poll: nada é processado, antes ou depois.
pub proof fn lei_listagem_falha(
    caminhos: nat,
    chaves: nat,
    oks: spec_fn(nat) -> bool,
    k: nat,
    n: nat,
)
    requires
        k < caminhos <= usize::MAX,
        chaves <= usize::MAX,
        forall|i: nat| i < k ==> #[trigger] oks(i),
        !oks(k),
    ensures
        etapa_do_poll(caminhos, chaves, oks, n) == (if n <= k {
            EtapaPoll::Listar(n as usize)
        } else {
            EtapaPoll::Falhar
        }),
    decreases n,
{
    if n > 0 {
        let m = (n - 1) as nat;
        lei_listagem_falha(caminhos, chaves, oks, k, m);
        assert(m < k ==> oks(m));
    }
}

// ---------------------------------------------------------------------------
// A cauda de um objeto
// ---------------------------------------------------------------------------

/// A cauda por objeto de cada coletor.
#[derive(Clone, Copy, Debug, PartialEq, Eq, Structural)]
pub enum Cauda {
    /// Raster do C13: processa, sobe os tiles, cataloga.
    C13,
    /// Pontos do GLM: parseia e cataloga.
    Glm,
}

/// Uma etapa da cauda de um objeto.
#[derive(Clone, Copy, Debug, PartialEq, Eq, Structural)]
pub enum Etapa {
    /// O bruto já está em disco? (`ok` = sim)
    VerLocal,
    Baixar,
    Processar,
    /// Lê os tiles gerados.
    LerTiles,
    /// Sobe os tiles no destino.
    Subir,
    Catalogar,
    ApagarBruto,
    ApagarTiles,
    /// O objeto está pronto.
    Concluir,
    /// O objeto falhou: fica para o próximo poll.
    Abortar,
}

/// A etapa que segue `etapa`, conforme ela deu certo ou não. Apagar é tentativa:
/// o resultado não muda o caminho.
pub open spec fn seguinte(cauda: Cauda, etapa: Etapa, ok: bool) -> Etapa {
    match etapa {
        Etapa::VerLocal => if ok {
            Etapa::Processar
        } else {
            Etapa::Baixar
        },
        Etapa::Baixar => if ok {
            Etapa::Processar
        } else {
            Etapa::Abortar
        },
        Etapa::Processar => if !ok {
            Etapa::Abortar
        } else if cauda == Cauda::C13 {
            Etapa::LerTiles
        } else {
            Etapa::Catalogar
        },
        Etapa::LerTiles => if ok {
            Etapa::Subir
        } else {
            Etapa::Abortar
        },
        Etapa::Subir => if ok {
            Etapa::Catalogar
        } else {
            Etapa::Abortar
        },
        Etapa::Catalogar => if ok {
            Etapa::ApagarBruto
        } else {
            Etapa::Abortar
        },
        Etapa::ApagarBruto => if cauda == Cauda::C13 {
            Etapa::ApagarTiles
        } else {
            Etapa::Concluir
        },
        Etapa::ApagarTiles => Etapa::Concluir,
        Etapa::Concluir => Etapa::Concluir,
        Etapa::Abortar => Etapa::Abortar,
    }
}

/// A próxima etapa da cauda. A cauda começa em [`Etapa::VerLocal`] e termina em
/// [`Etapa::Concluir`] ou [`Etapa::Abortar`].
pub fn proxima_etapa(cauda: Cauda, etapa: Etapa, ok: bool) -> (r: Etapa)
    ensures
        r == seguinte(cauda, etapa, ok),
{
    match etapa {
        Etapa::VerLocal => if ok {
            Etapa::Processar
        } else {
            Etapa::Baixar
        },
        Etapa::Baixar => if ok {
            Etapa::Processar
        } else {
            Etapa::Abortar
        },
        Etapa::Processar => if !ok {
            Etapa::Abortar
        } else {
            match cauda {
                Cauda::C13 => Etapa::LerTiles,
                Cauda::Glm => Etapa::Catalogar,
            }
        },
        Etapa::LerTiles => if ok {
            Etapa::Subir
        } else {
            Etapa::Abortar
        },
        Etapa::Subir => if ok {
            Etapa::Catalogar
        } else {
            Etapa::Abortar
        },
        Etapa::Catalogar => if ok {
            Etapa::ApagarBruto
        } else {
            Etapa::Abortar
        },
        Etapa::ApagarBruto => match cauda {
            Cauda::C13 => Etapa::ApagarTiles,
            Cauda::Glm => Etapa::Concluir,
        },
        Etapa::ApagarTiles => Etapa::Concluir,
        Etapa::Concluir => Etapa::Concluir,
        Etapa::Abortar => Etapa::Abortar,
    }
}

/// A etapa em que a cauda está depois de `n` etapas, se a de ordem `i` terminou
/// como `oks(i)`.
pub open spec fn etapa_em(cauda: Cauda, oks: spec_fn(nat) -> bool, n: nat) -> Etapa
    decreases n,
{
    if n == 0 {
        Etapa::VerLocal
    } else {
        seguinte(cauda, etapa_em(cauda, oks, (n - 1) as nat), oks((n - 1) as nat))
    }
}

/// A etapa `e` aconteceu antes da de ordem `n`, e deu certo.
pub open spec fn deu_certo(
    cauda: Cauda,
    oks: spec_fn(nat) -> bool,
    e: Etapa,
    n: nat,
) -> bool {
    exists|m: nat| m < n && #[trigger] etapa_em(cauda, oks, m) == e && oks(m)
}

/// Etapas cuja falha aborta o objeto.
pub open spec fn obrigatoria(e: Etapa) -> bool {
    e == Etapa::Baixar || e == Etapa::Processar || e == Etapa::LerTiles || e == Etapa::Subir || e
        == Etapa::Catalogar
}

/// Delete-on-success: só se apaga o bruto ou os tiles, e só se conclui, depois
/// que o objeto foi processado e catalogado, e, no C13, depois que os tiles
/// subiram. E só se cataloga o que foi processado e subiu.
pub proof fn lei_apaga_so_catalogado(cauda: Cauda, oks: spec_fn(nat) -> bool, n: nat)
    ensures
        ({
            let e = etapa_em(cauda, oks, n);
            &&& (e == Etapa::ApagarBruto || e == Etapa::ApagarTiles || e == Etapa::Concluir)
                ==> deu_certo(cauda, oks, Etapa::Catalogar, n)
            &&& (e == Etapa::Catalogar || e == Etapa::ApagarBruto || e == Etapa::ApagarTiles || e
                == Etapa::Concluir) ==> deu_certo(cauda, oks, Etapa::Processar, n) && (cauda
                == Cauda::C13 ==> deu_certo(cauda, oks, Etapa::Subir, n))
            &&& (e == Etapa::LerTiles || e == Etapa::Subir) ==> deu_certo(
                cauda,
                oks,
                Etapa::Processar,
                n,
            )
        }),
    decreases n,
{
    if n > 0 {
        let m = (n - 1) as nat;
        let antes = etapa_em(cauda, oks, m);
        lei_apaga_so_catalogado(cauda, oks, m);
        lema_deu_certo_continua(cauda, oks, Etapa::Catalogar, m);
        lema_deu_certo_continua(cauda, oks, Etapa::Processar, m);
        lema_deu_certo_continua(cauda, oks, Etapa::Subir, m);
        assert(oks(m) ==> deu_certo(cauda, oks, antes, n));
    }
}

/// O que deu certo antes de `n` deu certo antes de `n + 1`.
proof fn lema_deu_certo_continua(cauda: Cauda, oks: spec_fn(nat) -> bool, e: Etapa, n: nat)
    ensures
        deu_certo(cauda, oks, e, n) ==> deu_certo(cauda, oks, e, n + 1),
{
    if deu_certo(cauda, oks, e, n) {
        let m = choose|m: nat| m < n && #[trigger] etapa_em(cauda, oks, m) == e && oks(m);
        assert(m < n + 1 && etapa_em(cauda, oks, m) == e && oks(m));
    }
}

/// Uma falha antes do fim encerra o objeto: nada é catalogado nem apagado
/// depois dela, e o bruto fica em disco para a próxima tentativa.
pub proof fn lei_falha_aborta(cauda: Cauda, oks: spec_fn(nat) -> bool, m: nat, n: nat)
    requires
        obrigatoria(etapa_em(cauda, oks, m)),
        !oks(m),
        m < n,
    ensures
        etapa_em(cauda, oks, n) == Etapa::Abortar,
    decreases n,
{
    if n > m + 1 {
        lei_falha_aborta(cauda, oks, m, (n - 1) as nat);
    }
}

/// Só uma falha aborta: quando o objeto está abortado, alguma etapa anterior, a
/// de baixar, processar, ler os tiles, subir ou catalogar, não deu certo. Não
/// estar em disco não aborta, nem não conseguir apagar.
pub proof fn lei_aborta_so_por_falha(cauda: Cauda, oks: spec_fn(nat) -> bool, n: nat) -> (m: nat)
    requires
        etapa_em(cauda, oks, n) == Etapa::Abortar,
    ensures
        m < n,
        !oks(m),
        ({
            let e = etapa_em(cauda, oks, m);
            ||| e == Etapa::Baixar
            ||| e == Etapa::Processar
            ||| e == Etapa::LerTiles
            ||| e == Etapa::Subir
            ||| e == Etapa::Catalogar
        }),
    decreases n,
{
    let a = (n - 1) as nat;
    if etapa_em(cauda, oks, a) == Etapa::Abortar {
        lei_aborta_so_por_falha(cauda, oks, a)
    } else {
        a
    }
}

/// O caminho de um objeto a que nada falha, esteja o bruto em disco ou não: o
/// que não está é baixado; depois se processa, e daí em diante as etapas da
/// cauda vêm na ordem, uma vez cada, até concluir. Os resultados de apagar não
/// contam.
pub proof fn lei_sucesso_conclui(cauda: Cauda, oks: spec_fn(nat) -> bool, n: nat)
    requires
        forall|m: nat| 1 <= m <= 5 ==> #[trigger] oks(m),
    ensures
        n >= 8 ==> etapa_em(cauda, oks, n) == Etapa::Concluir,
        etapa_em(cauda, oks, 0) == Etapa::VerLocal,
        !oks(0) ==> etapa_em(cauda, oks, 1) == Etapa::Baixar,
        ({
            let d = if oks(0) { 1nat } else { 2nat };
            &&& etapa_em(cauda, oks, d) == Etapa::Processar
            &&& cauda == Cauda::Glm ==> {
                &&& etapa_em(cauda, oks, d + 1) == Etapa::Catalogar
                &&& etapa_em(cauda, oks, d + 2) == Etapa::ApagarBruto
                &&& etapa_em(cauda, oks, d + 3) == Etapa::Concluir
            }
            &&& cauda == Cauda::C13 ==> {
                &&& etapa_em(cauda, oks, d + 1) == Etapa::LerTiles
                &&& etapa_em(cauda, oks, d + 2) == Etapa::Subir
                &&& etapa_em(cauda, oks, d + 3) == Etapa::Catalogar
                &&& etapa_em(cauda, oks, d + 4) == Etapa::ApagarBruto
                &&& etapa_em(cauda, oks, d + 5) == Etapa::ApagarTiles
                &&& etapa_em(cauda, oks, d + 6) == Etapa::Concluir
            }
        }),
{
    assert(oks(1) && oks(2) && oks(3) && oks(4) && oks(5));
    reveal_with_fuel(etapa_em, 9);
    if n >= 8 {
        lei_cauda_termina(cauda, oks, 8);
        lema_concluido(cauda, oks, 8, n);
    }
}

/// Concluído, fica concluído.
proof fn lema_concluido(cauda: Cauda, oks: spec_fn(nat) -> bool, m: nat, n: nat)
    requires
        m <= n,
        etapa_em(cauda, oks, m) == Etapa::Concluir,
    ensures
        etapa_em(cauda, oks, n) == Etapa::Concluir,
    decreases n,
{
    if m < n {
        lema_concluido(cauda, oks, m, (n - 1) as nat);
    }
}

/// Para os dois fins: a cauda conclui se, e somente se, toda etapa obrigatória
/// por que passa dá certo; senão, aborta.
pub proof fn lei_conclui_sse_nada_falha(cauda: Cauda, oks: spec_fn(nat) -> bool, n: nat)
    requires
        n >= 8,
    ensures
        etapa_em(cauda, oks, n) == Etapa::Concluir <==> forall|m: nat|
            m < n && !oks(m) ==> {
                let e = #[trigger] etapa_em(cauda, oks, m);
                &&& e != Etapa::Baixar
                &&& e != Etapa::Processar
                &&& e != Etapa::LerTiles
                &&& e != Etapa::Subir
                &&& e != Etapa::Catalogar
            },
{
    lei_cauda_termina(cauda, oks, n);
    if etapa_em(cauda, oks, n) == Etapa::Abortar {
        let m = lei_aborta_so_por_falha(cauda, oks, n);
        assert(m < n && !oks(m));
        assert(obrigatoria(etapa_em(cauda, oks, m)));
    } else {
        assert forall|m: nat| m < n && !oks(m) implies {
            let e = #[trigger] etapa_em(cauda, oks, m);
            &&& e != Etapa::Baixar
            &&& e != Etapa::Processar
            &&& e != Etapa::LerTiles
            &&& e != Etapa::Subir
            &&& e != Etapa::Catalogar
        } by {
            if obrigatoria(etapa_em(cauda, oks, m)) {
                lei_falha_aborta(cauda, oks, m, n);
            }
        }
    }
}

/// Quantas etapas faltam, no máximo, até o fim.
spec fn faltam(e: Etapa) -> int {
    match e {
        Etapa::VerLocal => 8,
        Etapa::Baixar => 7,
        Etapa::Processar => 6,
        Etapa::LerTiles => 5,
        Etapa::Subir => 4,
        Etapa::Catalogar => 3,
        Etapa::ApagarBruto => 2,
        Etapa::ApagarTiles => 1,
        Etapa::Concluir => 0,
        Etapa::Abortar => 0,
    }
}

/// A cauda termina: depois de oito etapas o objeto está pronto ou falhou.
pub proof fn lei_cauda_termina(cauda: Cauda, oks: spec_fn(nat) -> bool, n: nat)
    requires
        n >= 8,
    ensures
        etapa_em(cauda, oks, n) == Etapa::Concluir || etapa_em(cauda, oks, n) == Etapa::Abortar,
{
    lema_faltam(cauda, oks, n);
}

/// A cada etapa falta ao menos uma a menos.
proof fn lema_faltam(cauda: Cauda, oks: spec_fn(nat) -> bool, n: nat)
    ensures
        faltam(etapa_em(cauda, oks, n)) <= (if n >= 8 {
            0
        } else {
            8 - n
        }),
    decreases n,
{
    if n > 0 {
        lema_faltam(cauda, oks, (n - 1) as nat);
    }
}

// ---------------------------------------------------------------------------
// O que se grava e o que se lista
// ---------------------------------------------------------------------------

/// O nome de arquivo de uma chave: o que vem depois da última barra.
pub fn nome_arquivo(key: &str) -> (r: String)
    ensures
        r@ == texto::depois_do_ultimo(key@, '/'),
        r@.len() <= key@.len(),
        r@ == key@.skip(key@.len() - r@.len()),
        !r@.contains('/'),
        r@.len() < key@.len() ==> key@[key@.len() - r@.len() - 1] == '/',
{
    texto::ultimo_trecho(key, '/')
}

/// O início de um arquivo: o que o nome diz, ou `agora` se ele não diz.
pub open spec fn inicio_de(filename: Seq<char>, agora: Momento) -> Momento {
    match nodd::primeiro_tempo(texto::partes(filename, '_'), 's') {
        Some(t) => t,
        None => agora,
    }
}

/// O início de um nome que o traz não depende do relógio; o do que não traz é o
/// do relógio.
pub proof fn lei_inicio_do_nome(
    antes: Seq<char>,
    a: (int, int, int, int, int, int),
    b: (int, int, int, int, int, int),
    depois: Seq<char>,
    nome: Seq<char>,
    agora: Momento,
)
    requires
        0 <= a.0 <= 9999,
        1 <= a.1 <= momento::dias_no_ano(a.0),
        0 <= a.2 < 24,
        0 <= a.3 < 60,
        0 <= a.4 < 60,
        0 <= a.5 < 10,
        0 <= b.0 <= 9999,
        1 <= b.1 <= momento::dias_no_ano(b.0),
        0 <= b.2 < 24,
        0 <= b.3 < 60,
        0 <= b.4 < 60,
        0 <= b.5 < 10,
        forall|i: int|
            0 <= i < texto::partes(antes, '_').len() ==> !nodd::traz_tempo(
                #[trigger] texto::partes(antes, '_')[i],
                's',
            ) && !nodd::traz_tempo(texto::partes(antes, '_')[i], 'e'),
    ensures
        inicio_de(
            antes + "_s"@ + nodd::token(a.0, a.1, a.2, a.3, a.4, a.5) + "_e"@ + nodd::token(
                b.0,
                b.1,
                b.2,
                b.3,
                b.4,
                b.5,
            ) + "_"@ + depois,
            agora,
        ) == momento::em_utc(momento::relogio(a.0, a.1, a.2, a.3, a.4, a.5 * 100)),
        (forall|i: int|
            0 <= i < texto::partes(nome, '_').len() ==> !nodd::traz_tempo(
                #[trigger] texto::partes(nome, '_')[i],
                's',
            )) ==> inicio_de(nome, agora) == agora,
{
    nodd::lei_tempos_do_nome(antes, a, b, depois);
    nodd::lei_primeiro_tempo(texto::partes(nome, '_'), 's');
}

/// Início do arquivo (token `s` do nome): base do tempo absoluto dos flashes e
/// chave de partição do catálogo. Sem token no nome, vale `agora`.
pub fn inicio_do_arquivo(filename: &str, agora: Momento) -> (r: Momento)
    ensures
        r == inicio_de(filename@, agora),
{
    match nodd::parse_frame_times(filename).0 {
        Some(t) => t,
        None => agora,
    }
}

/// `r` é a linha de catálogo do objeto `key` do produto.
pub open spec fn e_o_registro(
    r: FrameRecord,
    product: ProductConfig,
    dest_prefix: Seq<char>,
    key: Seq<char>,
    tamanho: int,
    agora: Momento,
) -> bool {
    let nome = texto::depois_do_ultimo(key, '/');
    &&& r.fonte@ == crate::FONTE@
    &&& r.produto@ == product.name@
    &&& r.canal == product.channel
    &&& r.chave_origem@ == key
    &&& r.chave_destino@ == nodd::chave_destino(product.name@, dest_prefix, key)
    &&& r.tamanho_bytes == tamanho
    &&& r.inicio == inicio_de(nome, agora)
    &&& r.fim == nodd::primeiro_tempo(texto::partes(nome, '_'), 'e')
}

/// O que se cataloga de um objeto no layout do NODD: o início e o fim são os dos
/// tokens `s` e `e` do nome, seja qual for o relógio; o destino tem a data da
/// pasta e o nome do arquivo; e a origem, o produto, o canal e o tamanho são os
/// que se deram.
pub proof fn lei_registro(
    r: FrameRecord,
    product: ProductConfig,
    dest_prefix: Seq<char>,
    hora: int,
    antes: Seq<char>,
    a: (int, int, int, int, int, int),
    b: (int, int, int, int, int, int),
    depois: Seq<char>,
    tamanho: int,
    agora: Momento,
)
    requires
        0 <= a.0 <= 9999,
        1 <= a.1 <= momento::dias_no_ano(a.0),
        0 <= a.2 < 24,
        0 <= a.3 < 60,
        0 <= a.4 < 60,
        0 <= a.5 < 10,
        0 <= b.0 <= 9999,
        1 <= b.1 <= momento::dias_no_ano(b.0),
        0 <= b.2 < 24,
        0 <= b.3 < 60,
        0 <= b.4 < 60,
        0 <= b.5 < 10,
        forall|i: int|
            0 <= i < texto::partes(antes, '_').len() ==> !nodd::traz_tempo(
                #[trigger] texto::partes(antes, '_')[i],
                's',
            ) && !nodd::traz_tempo(texto::partes(antes, '_')[i], 'e'),
        ({
            let nome = antes + "_s"@ + nodd::token(a.0, a.1, a.2, a.3, a.4, a.5) + "_e"@
                + nodd::token(b.0, b.1, b.2, b.3, b.4, b.5) + "_"@ + depois;
            &&& !nome.contains('/')
            &&& e_o_registro(
                r,
                product,
                dest_prefix,
                nodd::prefixo_da_hora(product.source_prefix@, hora) + nome + ".nc"@,
                tamanho,
                agora,
            )
        }),
    ensures
        r.inicio == momento::em_utc(momento::relogio(a.0, a.1, a.2, a.3, a.4, a.5 * 100)),
        r.fim == Some(momento::em_utc(momento::relogio(b.0, b.1, b.2, b.3, b.4, b.5 * 100))),
        ({
            let nome = antes + "_s"@ + nodd::token(a.0, a.1, a.2, a.3, a.4, a.5) + "_e"@
                + nodd::token(b.0, b.1, b.2, b.3, b.4, b.5) + "_"@ + depois;
            &&& r.chave_origem@ == nodd::prefixo_da_hora(product.source_prefix@, hora) + nome
                + ".nc"@
            &&& r.chave_destino@ == nodd::prefixo_destino(product.name@, dest_prefix) + "/"@
                + nodd::data_da_hora(hora) + "/"@ + nome + ".pmtiles"@
        }),
        r.fonte@ == crate::FONTE@,
        r.produto@ == product.name@,
        r.canal == product.channel,
        r.tamanho_bytes == tamanho,
{
    let nome = antes + "_s"@ + nodd::token(a.0, a.1, a.2, a.3, a.4, a.5) + "_e"@ + nodd::token(
        b.0,
        b.1,
        b.2,
        b.3,
        b.4,
        b.5,
    ) + "_"@ + depois;
    let cabeca = antes + "_s"@ + nodd::token(a.0, a.1, a.2, a.3, a.4, a.5) + "_e"@ + nodd::token(
        b.0,
        b.1,
        b.2,
        b.3,
        b.4,
        b.5,
    ) + "_"@;
    nodd::lei_destino_da_origem(product.name@, product.source_prefix@, dest_prefix, hora, nome);
    lema_cauda_do_nome(cabeca, depois);
    lema_nome_na_pasta(product.source_prefix@, hora, nome);
    nodd::lei_tempos_do_nome(antes, a, b, depois + ".nc"@);
}

/// A extensão faz parte do que vem por último no nome.
proof fn lema_cauda_do_nome(cabeca: Seq<char>, depois: Seq<char>)
    ensures
        cabeca + depois + ".nc"@ == cabeca + (depois + ".nc"@),
{
    assert(cabeca + depois + ".nc"@ =~= cabeca + (depois + ".nc"@));
}

/// O nome de um arquivo numa pasta da origem é o que vem depois dela.
proof fn lema_nome_na_pasta(source_prefix: Seq<char>, hora: int, nome: Seq<char>)
    requires
        !nome.contains('/'),
    ensures
        texto::depois_do_ultimo(
            nodd::prefixo_da_hora(source_prefix, hora) + nome + ".nc"@,
            '/',
        ) == nome + ".nc"@,
{
    reveal_strlit("/");
    reveal_strlit(".nc");
    let pasta = nodd::prefixo_da_hora(source_prefix, hora);
    let arquivo = nome + ".nc"@;
    let key = pasta + nome + ".nc"@;
    let sem_barra = pasta.drop_last();
    assert(pasta.last() == '/');
    assert(key =~= sem_barra.push('/') + arquivo);
    assert forall|i: int| 0 <= i < arquivo.len() implies arquivo[i] != '/' by {
        if i < nome.len() {
            assert(arquivo[i] == nome[i]);
        }
    }
    texto::lema_partes_concat(sem_barra, '/', arquivo);
    texto::lema_partes_sem_separador(arquivo, '/');
}

/// A linha de catálogo de um objeto da origem cujos tiles, de `tamanho` bytes,
/// estão no destino. `agora` só vale se o nome não traz o início.
pub fn registro(
    product: &ProductConfig,
    dest_prefix: &str,
    key: &str,
    tamanho: usize,
    agora: Momento,
) -> (r: FrameRecord)
    requires
        tamanho <= i64::MAX,
    ensures
        r.fonte@ == crate::FONTE@,
        r.produto@ == product.name@,
        r.canal == product.channel,
        r.chave_origem@ == key@,
        r.chave_destino@ == nodd::chave_destino(product.name@, dest_prefix@, key@),
        r.tamanho_bytes == tamanho,
        r.inicio == inicio_de(texto::depois_do_ultimo(key@, '/'), agora),
        r.fim == nodd::primeiro_tempo(
            texto::partes(texto::depois_do_ultimo(key@, '/'), '_'),
            'e',
        ),
        e_o_registro(r, *product, dest_prefix@, key@, tamanho as int, agora),
{
    let filename = nome_arquivo(key);
    let (inicio, fim) = nodd::parse_frame_times(filename.as_str());
    FrameRecord {
        fonte: crate::FONTE.to_owned(),
        produto: product.name.clone(),
        canal: product.channel.clone(),
        chave_origem: key.to_owned(),
        chave_destino: nodd::dest_pmtiles_key(product, dest_prefix, key),
        tamanho_bytes: tamanho as i64,
        inicio: match inicio {
            Some(t) => t,
            None => agora,
        },
        fim,
    }
}

/// O caminho que a listagem de verificação usa: o da hora corrente do primeiro
/// produto, ou nenhum (a raiz) se não há produto.
pub fn caminho_de_verificacao(config: &Config, now: Momento) -> (r: Option<String>)
    requires
        now.valido(),
        now.utc_valido(),
    ensures
        r is Some <==> config.products@.len() > 0,
        match r {
            Some(p) => p@ == storage::caminho_codificado(
                nodd::prefixo_da_hora(
                    config.products@[0].source_prefix@,
                    momento::hora_de(now.nanos as int),
                ),
            ),
            None => true,
        },
{
    if config.products.len() == 0 {
        None
    } else {
        let prefixo = nodd::source_hour_prefix(&config.products[0], now);
        Some(storage::caminho(prefixo.as_str()))
    }
}

/// Listados `found` objetos, a listagem de verificação vai ao seguinte?
pub fn lista_mais(found: usize, limit: usize) -> (r: bool)
    ensures
        r <==> found < limit,
{
    found < limit
}

} // verus!
