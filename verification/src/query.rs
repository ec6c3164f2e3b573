//! Consultas de leitura do catálogo: o que cada uma filtra, como pagina e quanto
//! devolve.
//!
//! As de frames ordenam por `inicio DESC` (índice `frames_produto_inicio_idx`);
//! as de raios, por `tempo DESC` (índice `raios_tempo_idx`). Cada função devolve
//! a consulta a executar; o banco devolve uma página dela.

use crate::entity;
use crate::momento::Momento;
use crate::raio::raios;
use vstd::prelude::*;

verus! {

broadcast use vstd::string::group_string_axioms;

/// A ordem das linhas de uma consulta, pelo tempo (`inicio` dos frames, `tempo`
/// dos raios).
#[derive(Clone, Copy, Debug, PartialEq, Eq, Structural)]
pub enum Ordem {
    /// Da mais antiga à mais nova.
    Crescente,
    /// Da mais nova à mais antiga.
    Decrescente,
}

/// Uma consulta: as linhas que atendem a todas as condições, na ordem, e só as
/// primeiras `limite`.
#[derive(Debug)]
pub struct Consulta<C> {
    pub condicoes: Vec<C>,
    pub ordem: Ordem,
    pub limite: u64,
}

// ---------------------------------------------------------------------------
// Frames
// ---------------------------------------------------------------------------

/// Condição sobre uma linha de `frames`.
#[derive(Debug)]
pub enum CondicaoFrame {
    /// `fonte` igual.
    Fonte(String),
    /// `produto` igual.
    Produto(String),
    /// `canal` presente e igual.
    Canal(String),
    /// `inicio` não anterior.
    Desde(Momento),
    /// `inicio` não posterior.
    Ate(Momento),
    /// `inicio` estritamente anterior.
    Antes(Momento),
}

impl CondicaoFrame {
    /// A linha atende à condição.
    pub open spec fn aceita(self, m: entity::Model) -> bool {
        match self {
            CondicaoFrame::Fonte(s) => m.fonte@ == s@,
            CondicaoFrame::Produto(s) => m.produto@ == s@,
            CondicaoFrame::Canal(s) => m.canal matches Some(c) && c@ == s@,
            CondicaoFrame::Desde(t) => m.inicio.nanos >= t.nanos,
            CondicaoFrame::Ate(t) => m.inicio.nanos <= t.nanos,
            CondicaoFrame::Antes(t) => m.inicio.nanos < t.nanos,
        }
    }
}

/// Cada condição de igualdade olha a sua coluna, e só ela: aceita a linha cuja
/// coluna traz o texto pedido, mude o que mudar no resto.
pub proof fn lei_condicoes_de_igualdade_dos_frames(s: String, m: entity::Model)
    ensures
        CondicaoFrame::Fonte(s).aceita(m) <==> m.fonte@ == s@,
        CondicaoFrame::Produto(s).aceita(m) <==> m.produto@ == s@,
        CondicaoFrame::Canal(s).aceita(m) <==> m.canal is Some && m.canal->0@ == s@,
{
}

/// O que as condições de tempo separam: um instante divide as linhas entre as
/// anteriores e as que não são; as duas janelas inclusivas de um mesmo instante
/// só têm em comum as linhas dele; e as linhas anteriores estão na janela que
/// vai até ele.
pub proof fn lei_condicoes_de_tempo_dos_frames(t: Momento, m: entity::Model)
    ensures
        CondicaoFrame::Desde(t).aceita(m) <==> !CondicaoFrame::Antes(t).aceita(m),
        CondicaoFrame::Desde(t).aceita(m) && CondicaoFrame::Ate(t).aceita(m) <==> m.inicio.nanos
            == t.nanos,
        CondicaoFrame::Antes(t).aceita(m) ==> CondicaoFrame::Ate(t).aceita(m),
        m.inicio.nanos < t.nanos ==> CondicaoFrame::Antes(t).aceita(m),
        m.inicio.nanos > t.nanos ==> CondicaoFrame::Desde(t).aceita(m),
{
}

/// A linha atende a todas as condições.
pub open spec fn aceita_frame(condicoes: Seq<CondicaoFrame>, m: entity::Model) -> bool {
    forall|i: int| 0 <= i < condicoes.len() ==> (#[trigger] condicoes[i]).aceita(m)
}

/// Filtro de [`listar_frames`].
#[derive(Debug)]
pub struct ListarFiltro<'a> {
    pub fonte: &'a str,
    pub produto: &'a str,
    pub canal: Option<&'a str>,
    /// Janela temporal sobre `inicio` (inclusiva). Lado omitido = sem limite.
    pub de: Option<Momento>,
    pub ate: Option<Momento>,
    /// Cursor de paginação: só frames com `inicio` **estritamente anterior**
    /// (ordenação DESC). Como `inicio` tem precisão de décimo de segundo e os
    /// frames de um produto são minutos entre si, é único na prática.
    pub cursor: Option<Momento>,
    /// Máximo de linhas a devolver.
    pub limite: u64,
}

/// O instante está na janela (inclusiva; lado omitido = sem limite) e antes do
/// cursor.
pub open spec fn na_janela(
    t: Momento,
    de: Option<Momento>,
    ate: Option<Momento>,
    cursor: Option<Momento>,
) -> bool {
    &&& de matches Some(d) ==> d.nanos <= t.nanos
    &&& ate matches Some(a) ==> t.nanos <= a.nanos
    &&& cursor matches Some(c) ==> t.nanos < c.nanos
}

/// A linha é da fonte, do produto e, se pedido, do canal.
pub open spec fn do_produto(
    m: entity::Model,
    fonte: Seq<char>,
    produto: Seq<char>,
    canal: Option<&str>,
) -> bool {
    &&& m.fonte@ == fonte
    &&& m.produto@ == produto
    &&& canal matches Some(c) ==> (m.canal matches Some(d) && d@ == c@)
}

/// A linha passa no filtro.
pub open spec fn casa_frame(f: ListarFiltro, m: entity::Model) -> bool {
    do_produto(m, f.fonte@, f.produto@, f.canal) && na_janela(m.inicio, f.de, f.ate, f.cursor)
}

/// Uma condição a mais restringe as linhas aceitas às que a atendem.
proof fn lema_mais_uma_frame(antes: Seq<CondicaoFrame>, c: CondicaoFrame)
    ensures
        forall|m: entity::Model| #[trigger]
            aceita_frame(antes.push(c), m) <==> aceita_frame(antes, m) && c.aceita(m),
{
    assert forall|m: entity::Model| #[trigger] aceita_frame(antes.push(c), m) <==> aceita_frame(
        antes,
        m,
    ) && c.aceita(m) by {
        let depois = antes.push(c);
        if aceita_frame(depois, m) {
            assert(depois[antes.len() as int].aceita(m));
            assert forall|i: int| 0 <= i < antes.len() implies (#[trigger] antes[i]).aceita(m) by {
                assert(depois[i].aceita(m));
            }
        }
    }
}

/// As condições comuns às consultas de frames: fonte, produto e canal.
fn condicoes_do_produto(fonte: &str, produto: &str, canal: Option<&str>) -> (r: Vec<CondicaoFrame>)
    ensures
        forall|m: entity::Model| #[trigger]
            aceita_frame(r@, m) <==> do_produto(m, fonte@, produto@, canal),
{
    let mut r: Vec<CondicaoFrame> = Vec::new();
    let ghost v0 = r@;
    let c = CondicaoFrame::Fonte(fonte.to_owned());
    proof {
        lema_mais_uma_frame(r@, c);
    }
    r.push(c);
    let c = CondicaoFrame::Produto(produto.to_owned());
    proof {
        lema_mais_uma_frame(r@, c);
    }
    r.push(c);
    if let Some(s) = canal {
        let c = CondicaoFrame::Canal(s.to_owned());
        proof {
            lema_mais_uma_frame(r@, c);
        }
        r.push(c);
    }
    assert(forall|m: entity::Model| #[trigger] aceita_frame(v0, m));
    r
}

/// Frame mais recente de `(fonte, produto[, canal])`: a consulta devolve no
/// máximo uma linha.
pub fn ultimo_frame(fonte: &str, produto: &str, canal: Option<&str>) -> (r: Consulta<CondicaoFrame>)
    ensures
        r.limite == 1,
        r.ordem == Ordem::Decrescente,
        forall|m: entity::Model| #[trigger]
            aceita_frame(r.condicoes@, m) <==> do_produto(m, fonte@, produto@, canal),
        forall|m: entity::Model| #[trigger]
            aceita_frame(r.condicoes@, m) <==> {
                &&& m.fonte@ == fonte@
                &&& m.produto@ == produto@
                &&& canal is Some ==> m.canal is Some && m.canal->0@ == canal->0@
            },
{
    Consulta {
        condicoes: condicoes_do_produto(fonte, produto, canal),
        ordem: Ordem::Decrescente,
        limite: 1,
    }
}

/// Frames numa janela, do mais novo ao mais antigo, respeitando o cursor.
pub fn listar_frames(f: &ListarFiltro) -> (r: Consulta<CondicaoFrame>)
    ensures
        r.limite == f.limite,
        r.ordem == Ordem::Decrescente,
        forall|m: entity::Model| #[trigger]
            aceita_frame(r.condicoes@, m) <==> casa_frame(*f, m),
        forall|m: entity::Model| #[trigger]
            aceita_frame(r.condicoes@, m) <==> {
                &&& m.fonte@ == f.fonte@
                &&& m.produto@ == f.produto@
                &&& f.canal is Some ==> m.canal is Some && m.canal->0@ == f.canal->0@
                &&& f.de is Some ==> f.de->0.nanos <= m.inicio.nanos
                &&& f.ate is Some ==> m.inicio.nanos <= f.ate->0.nanos
                &&& f.cursor is Some ==> m.inicio.nanos < f.cursor->0.nanos
            },
{
    let mut v = condicoes_do_produto(f.fonte, f.produto, f.canal);
    if let Some(t) = f.de {
        let c = CondicaoFrame::Desde(t);
        proof {
            lema_mais_uma_frame(v@, c);
        }
        v.push(c);
    }
    if let Some(t) = f.ate {
        let c = CondicaoFrame::Ate(t);
        proof {
            lema_mais_uma_frame(v@, c);
        }
        v.push(c);
    }
    if let Some(t) = f.cursor {
        let c = CondicaoFrame::Antes(t);
        proof {
            lema_mais_uma_frame(v@, c);
        }
        v.push(c);
    }
    Consulta { condicoes: v, ordem: Ordem::Decrescente, limite: f.limite }
}

// ---------------------------------------------------------------------------
// Raios
// ---------------------------------------------------------------------------

/// Condição sobre uma linha de `raios`.
#[derive(Debug)]
pub enum CondicaoRaio<F> {
    /// `fonte` igual.
    Fonte(String),
    /// `qualidade` não maior.
    QualidadeAte(i16),
    /// `lon` entre os dois (inclusive).
    LonEntre(F, F),
    /// `lat` entre os dois (inclusive).
    LatEntre(F, F),
    /// `tempo` não anterior.
    Desde(Momento),
    /// `tempo` não posterior.
    Ate(Momento),
    /// `tempo` estritamente anterior.
    Antes(Momento),
}

impl<F> CondicaoRaio<F> {
    /// A linha atende à condição. `entre(x, a, b)` diz se a grandeza `x` está
    /// entre `a` e `b`.
    pub open spec fn aceita(self, entre: spec_fn(F, F, F) -> bool, m: raios::Model<F>) -> bool {
        match self {
            CondicaoRaio::Fonte(s) => m.fonte@ == s@,
            CondicaoRaio::QualidadeAte(q) => m.qualidade <= q,
            CondicaoRaio::LonEntre(a, b) => entre(m.lon, a, b),
            CondicaoRaio::LatEntre(a, b) => entre(m.lat, a, b),
            CondicaoRaio::Desde(t) => m.tempo.nanos >= t.nanos,
            CondicaoRaio::Ate(t) => m.tempo.nanos <= t.nanos,
            CondicaoRaio::Antes(t) => m.tempo.nanos < t.nanos,
        }
    }
}

/// As outras condições olham cada uma a sua coluna, e só ela: a fonte, a
/// qualidade até a pedida, a longitude e a latitude entre os dois lados.
pub proof fn lei_condicoes_de_coluna_dos_raios<F>(
    s: String,
    q: i16,
    a: F,
    b: F,
    entre: spec_fn(F, F, F) -> bool,
    m: raios::Model<F>,
)
    ensures
        CondicaoRaio::<F>::Fonte(s).aceita(entre, m) <==> m.fonte@ == s@,
        CondicaoRaio::<F>::QualidadeAte(q).aceita(entre, m) <==> m.qualidade <= q,
        CondicaoRaio::LonEntre(a, b).aceita(entre, m) <==> entre(m.lon, a, b),
        CondicaoRaio::LatEntre(a, b).aceita(entre, m) <==> entre(m.lat, a, b),
{
}

/// O que as condições de tempo separam: um instante divide as linhas entre as
/// anteriores e as que não são; as duas janelas inclusivas de um mesmo instante
/// só têm em comum as linhas dele; e as linhas anteriores estão na janela que
/// vai até ele.
pub proof fn lei_condicoes_de_tempo_dos_raios<F>(
    t: Momento,
    entre: spec_fn(F, F, F) -> bool,
    m: raios::Model<F>,
)
    ensures
        CondicaoRaio::<F>::Desde(t).aceita(entre, m) <==> !CondicaoRaio::<F>::Antes(t).aceita(
            entre,
            m,
        ),
        CondicaoRaio::<F>::Desde(t).aceita(entre, m) && CondicaoRaio::<F>::Ate(t).aceita(entre, m)
            <==> m.tempo.nanos == t.nanos,
        CondicaoRaio::<F>::Antes(t).aceita(entre, m) ==> CondicaoRaio::<F>::Ate(t).aceita(entre, m),
        m.tempo.nanos < t.nanos ==> CondicaoRaio::<F>::Antes(t).aceita(entre, m),
        m.tempo.nanos > t.nanos ==> CondicaoRaio::<F>::Desde(t).aceita(entre, m),
{
}

/// A linha atende a todas as condições.
pub open spec fn aceita_raio<F>(
    condicoes: Seq<CondicaoRaio<F>>,
    entre: spec_fn(F, F, F) -> bool,
    m: raios::Model<F>,
) -> bool {
    forall|i: int| 0 <= i < condicoes.len() ==> (#[trigger] condicoes[i]).aceita(entre, m)
}

/// Filtro de [`listar_raios`].
#[derive(Debug)]
pub struct ListarRaiosFiltro<'a, F> {
    pub fonte: &'a str,
    /// BBOX `[oeste, sul, leste, norte]` (graus). `None` = toda a cobertura.
    pub bbox: Option<[F; 4]>,
    /// Janela temporal sobre `tempo` (inclusiva). Lado omitido = sem limite.
    pub de: Option<Momento>,
    pub ate: Option<Momento>,
    /// Máximo `flash_quality_flag` aceito (0 = só bons). Filtro na consulta.
    pub qualidade_max: i16,
    /// Cursor de paginação: só flashes com `tempo` estritamente anterior (DESC).
    pub cursor: Option<Momento>,
    pub limite: u64,
}

/// A linha passa no filtro.
pub open spec fn casa_raio<F>(
    f: ListarRaiosFiltro<F>,
    entre: spec_fn(F, F, F) -> bool,
    m: raios::Model<F>,
) -> bool {
    &&& m.fonte@ == f.fonte@
    &&& m.qualidade <= f.qualidade_max
    &&& f.bbox matches Some(b) ==> entre(m.lon, b[0], b[2]) && entre(m.lat, b[1], b[3])
    &&& na_janela(m.tempo, f.de, f.ate, f.cursor)
}

/// Uma condição a mais restringe as linhas aceitas às que a atendem.
proof fn lema_mais_uma_raio<F>(antes: Seq<CondicaoRaio<F>>, c: CondicaoRaio<F>)
    ensures
        forall|entre: spec_fn(F, F, F) -> bool, m: raios::Model<F>| #[trigger]
            aceita_raio(antes.push(c), entre, m) <==> aceita_raio(antes, entre, m) && c.aceita(
                entre,
                m,
            ),
{
    assert forall|entre: spec_fn(F, F, F) -> bool, m: raios::Model<F>| #[trigger]
        aceita_raio(antes.push(c), entre, m) <==> aceita_raio(antes, entre, m) && c.aceita(
            entre,
            m,
        ) by {
        let depois = antes.push(c);
        if aceita_raio(depois, entre, m) {
            assert(depois[antes.len() as int].aceita(entre, m));
            assert forall|i: int| 0 <= i < antes.len() implies (#[trigger] antes[i]).aceita(
                entre,
                m,
            ) by {
                assert(depois[i].aceita(entre, m));
            }
        }
    }
}

/// Flashes numa janela (bbox + tempo), do mais novo ao mais antigo, filtrando
/// por qualidade e respeitando o cursor.
pub fn listar_raios<F: Copy>(f: &ListarRaiosFiltro<F>) -> (r: Consulta<CondicaoRaio<F>>)
    ensures
        r.limite == f.limite,
        r.ordem == Ordem::Decrescente,
        forall|entre: spec_fn(F, F, F) -> bool, m: raios::Model<F>| #[trigger]
            aceita_raio(r.condicoes@, entre, m) <==> casa_raio(*f, entre, m),
        forall|entre: spec_fn(F, F, F) -> bool, m: raios::Model<F>| #[trigger]
            aceita_raio(r.condicoes@, entre, m) <==> {
                &&& m.fonte@ == f.fonte@
                &&& m.qualidade <= f.qualidade_max
                &&& f.bbox is Some ==> entre(m.lon, f.bbox->0[0], f.bbox->0[2])
                &&& f.bbox is Some ==> entre(m.lat, f.bbox->0[1], f.bbox->0[3])
                &&& f.de is Some ==> f.de->0.nanos <= m.tempo.nanos
                &&& f.ate is Some ==> m.tempo.nanos <= f.ate->0.nanos
                &&& f.cursor is Some ==> m.tempo.nanos < f.cursor->0.nanos
            },
{
    let mut v: Vec<CondicaoRaio<F>> = Vec::new();
    let ghost v0 = v@;
    let c = CondicaoRaio::Fonte(f.fonte.to_owned());
    proof {
        lema_mais_uma_raio(v@, c);
    }
    v.push(c);
    let c = CondicaoRaio::QualidadeAte(f.qualidade_max);
    proof {
        lema_mais_uma_raio(v@, c);
    }
    v.push(c);
    if let Some(b) = f.bbox {
        let c = CondicaoRaio::LonEntre(b[0], b[2]);
        proof {
            lema_mais_uma_raio(v@, c);
        }
        v.push(c);
        let c = CondicaoRaio::LatEntre(b[1], b[3]);
        proof {
            lema_mais_uma_raio(v@, c);
        }
        v.push(c);
    }
    if let Some(t) = f.de {
        let c = CondicaoRaio::Desde(t);
        proof {
            lema_mais_uma_raio(v@, c);
        }
        v.push(c);
    }
    if let Some(t) = f.ate {
        let c = CondicaoRaio::Ate(t);
        proof {
            lema_mais_uma_raio(v@, c);
        }
        v.push(c);
    }
    if let Some(t) = f.cursor {
        let c = CondicaoRaio::Antes(t);
        proof {
            lema_mais_uma_raio(v@, c);
        }
        v.push(c);
    }
    assert(forall|entre: spec_fn(F, F, F) -> bool, m: raios::Model<F>| #[trigger]
        aceita_raio(v0, entre, m));
    Consulta { condicoes: v, ordem: Ordem::Decrescente, limite: f.limite }
}

// ---------------------------------------------------------------------------
// Paginação
// ---------------------------------------------------------------------------

/// `r` (posições na tabela) é uma página das linhas aceitas: do mais novo ao
/// mais antigo, sem repetir, no máximo `limite`. Só fica linha de fora se a
/// página encheu, e o que fica não é mais novo que o que veio.
pub open spec fn e_pagina(
    aceita: spec_fn(int) -> bool,
    tempo: spec_fn(int) -> int,
    limite: int,
    r: Seq<int>,
) -> bool {
    &&& r.no_duplicates()
    &&& r.len() <= limite
    &&& forall|i: int| 0 <= i < r.len() ==> aceita(#[trigger] r[i])
    &&& forall|i: int, j: int| 0 <= i < j < r.len() ==> tempo(#[trigger] r[i]) >= tempo(#[trigger] r[j])
    &&& forall|x: int|
        #[trigger] aceita(x) && !r.contains(x) ==> r.len() == limite && (forall|i: int|
            0 <= i < r.len() ==> tempo(#[trigger] r[i]) >= tempo(x))
}

/// As linhas aceitas que vêm antes do cursor.
spec fn ate_cursor(
    aceita: spec_fn(int) -> bool,
    tempo: spec_fn(int) -> int,
    cursor: Option<int>,
) -> spec_fn(int) -> bool {
    |x: int| aceita(x) && (cursor matches Some(c) ==> tempo(x) < c)
}

/// As páginas que se veem seguindo o cursor: cheia a página, a próxima começa
/// depois da última linha dela; a que não encheu é a última.
spec fn percurso(
    aceita: spec_fn(int) -> bool,
    tempo: spec_fn(int) -> int,
    limite: int,
    cursor: Option<int>,
    ps: Seq<Seq<int>>,
) -> bool
    decreases ps.len(),
{
    &&& ps.len() > 0
    &&& e_pagina(ate_cursor(aceita, tempo, cursor), tempo, limite, ps[0])
    &&& if ps[0].len() == limite {
        percurso(aceita, tempo, limite, Some(tempo(ps[0].last())), ps.drop_first())
    } else {
        ps.len() == 1
    }
}

/// As linhas das páginas, na ordem em que vieram.
pub open spec fn linhas_vistas(ps: Seq<Seq<int>>) -> Seq<int>
    decreases ps.len(),
{
    if ps.len() == 0 {
        Seq::<int>::empty()
    } else {
        ps[0] + linhas_vistas(ps.drop_first())
    }
}

/// O que um percurso vê.
proof fn lema_percurso(
    aceita: spec_fn(int) -> bool,
    tempo: spec_fn(int) -> int,
    limite: int,
    cursor: Option<int>,
    ps: Seq<Seq<int>>,
)
    requires
        limite > 0,
        percurso(aceita, tempo, limite, cursor, ps),
    ensures
        ({
            let v = linhas_vistas(ps);
            let alvo = ate_cursor(aceita, tempo, cursor);
            &&& v.no_duplicates()
            &&& forall|i: int| 0 <= i < v.len() ==> alvo(#[trigger] v[i])
            &&& forall|i: int, j: int|
                0 <= i < j < v.len() ==> tempo(#[trigger] v[i]) >= tempo(#[trigger] v[j])
            &&& (forall|x: int, y: int|
                #![trigger aceita(x), aceita(y)]
                aceita(x) && aceita(y) && x != y ==> tempo(x) != tempo(y)) ==> (forall|x: int|
                #[trigger] alvo(x) ==> v.contains(x))
        }),
    decreases ps.len(),
{
    let v = linhas_vistas(ps);
    let alvo = ate_cursor(aceita, tempo, cursor);
    let p = ps[0];
    let resto = ps.drop_first();
    let w = linhas_vistas(resto);
    assert(v =~= p + w);
    if p.len() == limite {
        let c = tempo(p.last());
        let depois = ate_cursor(aceita, tempo, Some(c));
        lema_percurso(aceita, tempo, limite, Some(c), resto);
        let n = p.len() as int;
        assert(p[n - 1] == p.last());
        assert(alvo(p[n - 1]));
        assert forall|j: int| 0 <= j < w.len() implies tempo(#[trigger] w[j]) < c && alvo(w[j]) by {
            assert(depois(w[j]));
        }
        assert forall|i: int| 0 <= i < n implies tempo(#[trigger] p[i]) >= c by {
            if i < n - 1 {
                assert(tempo(p[i]) >= tempo(p[n - 1]));
            }
        }
        assert forall|i: int, j: int| 0 <= i < j < v.len() implies tempo(#[trigger] v[i]) >= tempo(
            #[trigger] v[j],
        ) && v[i] != v[j] by {
            if i < n {
                assert(v[i] == p[i]);
                if j < n {
                    assert(v[j] == p[j]);
                } else {
                    assert(v[j] == w[j - n]);
                }
            } else {
                assert(v[i] == w[i - n] && v[j] == w[j - n]);
            }
        }
        assert forall|i: int| 0 <= i < v.len() implies alvo(#[trigger] v[i]) by {
            if i < n {
                assert(v[i] == p[i]);
            } else {
                assert(v[i] == w[i - n]);
            }
        }
        if forall|x: int, y: int|
            #![trigger aceita(x), aceita(y)]
            aceita(x) && aceita(y) && x != y ==> tempo(x) != tempo(y) {
            assert forall|x: int| #[trigger] alvo(x) implies v.contains(x) by {
                if p.contains(x) {
                    let i = choose|i: int| 0 <= i < p.len() && p[i] == x;
                    assert(v[i] == x);
                } else {
                    assert(tempo(p[n - 1]) >= tempo(x));
                    assert(aceita(p[n - 1]) && aceita(x));
                    assert(depois(x));
                    let j = choose|j: int| 0 <= j < w.len() && w[j] == x;
                    assert(v[n + j] == x);
                }
            }
        }
    } else {
        assert(resto.len() == 0);
        assert(v =~= p);
    }
}

/// `r` é uma página do que o filtro pede de uma tabela `frames`.
pub open spec fn pagina_frames(
    tabela: Seq<entity::Model>,
    f: ListarFiltro,
    r: Seq<int>,
) -> bool {
    e_pagina(
        |i: int| 0 <= i < tabela.len() && casa_frame(f, tabela[i]),
        |i: int| tabela[i].inicio.nanos as int,
        f.limite as int,
        r,
    )
}

/// O mesmo filtro, com outro cursor.
pub open spec fn frames_com_cursor<'a>(
    f: ListarFiltro<'a>,
    cursor: Option<Momento>,
) -> ListarFiltro<'a> {
    ListarFiltro {
        fonte: f.fonte,
        produto: f.produto,
        canal: f.canal,
        de: f.de,
        ate: f.ate,
        cursor,
        limite: f.limite,
    }
}

/// As páginas de frames que um consumidor vê seguindo o cursor até o fim.
pub open spec fn percurso_frames(
    tabela: Seq<entity::Model>,
    f: ListarFiltro,
    ps: Seq<Seq<int>>,
) -> bool
    decreases ps.len(),
{
    &&& ps.len() > 0
    &&& pagina_frames(tabela, f, ps[0])
    &&& if ps[0].len() == f.limite {
        percurso_frames(
            tabela,
            frames_com_cursor(f, Some(tabela[ps[0].last()].inicio)),
            ps.drop_first(),
        )
    } else {
        ps.len() == 1
    }
}

/// As linhas de um filtro sem o cursor.
spec fn base_frames(tabela: Seq<entity::Model>, f: ListarFiltro) -> spec_fn(int) -> bool {
    |i: int| 0 <= i < tabela.len() && casa_frame(frames_com_cursor(f, None), tabela[i])
}

/// Os nanossegundos de um cursor.
spec fn nanos_do_cursor(cursor: Option<Momento>) -> Option<int> {
    match cursor {
        Some(c) => Some(c.nanos as int),
        None => None,
    }
}

proof fn lema_percurso_frames(tabela: Seq<entity::Model>, f: ListarFiltro, ps: Seq<Seq<int>>)
    requires
        percurso_frames(tabela, f, ps),
    ensures
        percurso(
            base_frames(tabela, f),
            |i: int| tabela[i].inicio.nanos as int,
            f.limite as int,
            nanos_do_cursor(f.cursor),
            ps,
        ),
    decreases ps.len(),
{
    let tempo = |i: int| tabela[i].inicio.nanos as int;
    let alvo = |i: int| 0 <= i < tabela.len() && casa_frame(f, tabela[i]);
    assert(alvo =~= ate_cursor(base_frames(tabela, f), tempo, nanos_do_cursor(f.cursor)));
    if ps[0].len() == f.limite {
        let g = frames_com_cursor(f, Some(tabela[ps[0].last()].inicio));
        lema_percurso_frames(tabela, g, ps.drop_first());
        assert(base_frames(tabela, g) =~= base_frames(tabela, f));
    }
}

/// Paginação de frames: seguindo o cursor, nenhuma linha se repete, só vêm
/// linhas que o filtro pede, e na ordem do mais novo ao mais antigo. Se os
/// `inicio` das linhas pedidas são todos diferentes, nenhuma linha se perde.
pub proof fn lei_paginacao_frames(tabela: Seq<entity::Model>, f: ListarFiltro, ps: Seq<Seq<int>>)
    requires
        f.limite > 0,
        percurso_frames(tabela, f, ps),
    ensures
        linhas_vistas(ps).no_duplicates(),
        forall|i: int|
            0 <= i < linhas_vistas(ps).len() ==> {
                let x = #[trigger] linhas_vistas(ps)[i];
                0 <= x < tabela.len() && casa_frame(f, tabela[x])
            },
        forall|i: int, j: int|
            0 <= i < j < linhas_vistas(ps).len() ==> tabela[
            #[trigger] linhas_vistas(ps)[i]].inicio.nanos >= tabela[
            #[trigger] linhas_vistas(ps)[j]].inicio.nanos,
        (forall|x: int, y: int|
            0 <= x < y < tabela.len() && casa_frame(
                frames_com_cursor(f, None),
                #[trigger] tabela[x],
            ) && casa_frame(frames_com_cursor(f, None), #[trigger] tabela[y]) ==> tabela[x].inicio.nanos
                != tabela[y].inicio.nanos) ==> forall|x: int|
            0 <= x < tabela.len() && casa_frame(f, #[trigger] tabela[x]) ==> linhas_vistas(
                ps,
            ).contains(x),
{
    let tempo = |i: int| tabela[i].inicio.nanos as int;
    let base = base_frames(tabela, f);
    let alvo = ate_cursor(base, tempo, nanos_do_cursor(f.cursor));
    let v = linhas_vistas(ps);
    lema_percurso_frames(tabela, f, ps);
    lema_percurso(base, tempo, f.limite as int, nanos_do_cursor(f.cursor), ps);
    assert forall|i: int| 0 <= i < v.len() implies {
        let x = #[trigger] v[i];
        0 <= x < tabela.len() && casa_frame(f, tabela[x])
    } by {
        assert(alvo(v[i]));
    }
    assert forall|i: int, j: int| 0 <= i < j < v.len() implies tabela[
    #[trigger] v[i]].inicio.nanos >= tabela[#[trigger] v[j]].inicio.nanos by {
        assert(tempo(v[i]) >= tempo(v[j]));
    }
    if forall|x: int, y: int|
        0 <= x < y < tabela.len() && casa_frame(frames_com_cursor(f, None), #[trigger] tabela[x])
            && casa_frame(frames_com_cursor(f, None), #[trigger] tabela[y]) ==> tabela[x].inicio.nanos
            != tabela[y].inicio.nanos {
        assert forall|x: int, y: int|
            #![trigger base(x), base(y)]
            base(x) && base(y) && x != y implies tempo(x) != tempo(y) by {
            assert(casa_frame(frames_com_cursor(f, None), tabela[x]));
            assert(casa_frame(frames_com_cursor(f, None), tabela[y]));
        }
        assert forall|x: int|
            0 <= x < tabela.len() && casa_frame(f, #[trigger] tabela[x]) implies v.contains(x) by {
            assert(alvo(x));
        }
    }
}

/// O último frame: a consulta de uma linha só não acha nada quando nenhuma linha
/// é do produto, e o que acha é dele e não é mais antigo que nenhuma outra.
pub proof fn lei_ultimo_frame(
    tabela: Seq<entity::Model>,
    condicoes: Seq<CondicaoFrame>,
    r: Seq<int>,
)
    requires
        e_pagina(
            |i: int| 0 <= i < tabela.len() && aceita_frame(condicoes, tabela[i]),
            |i: int| tabela[i].inicio.nanos as int,
            1,
            r,
        ),
    ensures
        r.len() == 0 <==> forall|x: int|
            0 <= x < tabela.len() ==> !aceita_frame(condicoes, #[trigger] tabela[x]),
        r.len() > 0 ==> 0 <= r[0] < tabela.len() && aceita_frame(condicoes, tabela[r[0]])
            && forall|x: int|
            0 <= x < tabela.len() && aceita_frame(condicoes, #[trigger] tabela[x])
                ==> tabela[x].inicio.nanos <= tabela[r[0]].inicio.nanos,
{
    let aceita = |i: int| 0 <= i < tabela.len() && aceita_frame(condicoes, tabela[i]);
    let tempo = |i: int| tabela[i].inicio.nanos as int;
    if r.len() == 0 {
        assert forall|x: int| 0 <= x < tabela.len() implies !aceita_frame(
            condicoes,
            #[trigger] tabela[x],
        ) by {
            if aceita_frame(condicoes, tabela[x]) {
                assert(aceita(x) && !r.contains(x));
            }
        }
    } else {
        assert(aceita(r[0]));
        assert(aceita_frame(condicoes, tabela[r[0]]));
        assert forall|x: int|
            0 <= x < tabela.len() && aceita_frame(
                condicoes,
                #[trigger] tabela[x],
            ) implies tabela[x].inicio.nanos <= tabela[r[0]].inicio.nanos by {
            assert(aceita(x));
            if r.contains(x) {
                let k = choose|k: int| 0 <= k < r.len() && r[k] == x;
                assert(k == 0);
            } else {
                assert(tempo(r[0]) >= tempo(x));
            }
        }
    }
}

/// `r` é uma página do que o filtro pede de uma tabela `raios`.
pub open spec fn pagina_raios<F>(
    tabela: Seq<raios::Model<F>>,
    f: ListarRaiosFiltro<F>,
    entre: spec_fn(F, F, F) -> bool,
    r: Seq<int>,
) -> bool {
    e_pagina(
        |i: int| 0 <= i < tabela.len() && casa_raio(f, entre, tabela[i]),
        |i: int| tabela[i].tempo.nanos as int,
        f.limite as int,
        r,
    )
}

/// O mesmo filtro, com outro cursor.
pub open spec fn raios_com_cursor<'a, F>(
    f: ListarRaiosFiltro<'a, F>,
    cursor: Option<Momento>,
) -> ListarRaiosFiltro<'a, F> {
    ListarRaiosFiltro {
        fonte: f.fonte,
        bbox: f.bbox,
        de: f.de,
        ate: f.ate,
        qualidade_max: f.qualidade_max,
        cursor,
        limite: f.limite,
    }
}

/// As páginas de raios que um consumidor vê seguindo o cursor até o fim.
pub open spec fn percurso_raios<F>(
    tabela: Seq<raios::Model<F>>,
    f: ListarRaiosFiltro<F>,
    entre: spec_fn(F, F, F) -> bool,
    ps: Seq<Seq<int>>,
) -> bool
    decreases ps.len(),
{
    &&& ps.len() > 0
    &&& pagina_raios(tabela, f, entre, ps[0])
    &&& if ps[0].len() == f.limite {
        percurso_raios(
            tabela,
            raios_com_cursor(f, Some(tabela[ps[0].last()].tempo)),
            entre,
            ps.drop_first(),
        )
    } else {
        ps.len() == 1
    }
}

/// As linhas de um filtro sem o cursor.
spec fn base_raios<F>(
    tabela: Seq<raios::Model<F>>,
    f: ListarRaiosFiltro<F>,
    entre: spec_fn(F, F, F) -> bool,
) -> spec_fn(int) -> bool {
    |i: int| 0 <= i < tabela.len() && casa_raio(raios_com_cursor(f, None), entre, tabela[i])
}

proof fn lema_percurso_raios<F>(
    tabela: Seq<raios::Model<F>>,
    f: ListarRaiosFiltro<F>,
    entre: spec_fn(F, F, F) -> bool,
    ps: Seq<Seq<int>>,
)
    requires
        percurso_raios(tabela, f, entre, ps),
    ensures
        percurso(
            base_raios(tabela, f, entre),
            |i: int| tabela[i].tempo.nanos as int,
            f.limite as int,
            nanos_do_cursor(f.cursor),
            ps,
        ),
    decreases ps.len(),
{
    let tempo = |i: int| tabela[i].tempo.nanos as int;
    let alvo = |i: int| 0 <= i < tabela.len() && casa_raio(f, entre, tabela[i]);
    assert(alvo =~= ate_cursor(base_raios(tabela, f, entre), tempo, nanos_do_cursor(f.cursor)));
    if ps[0].len() == f.limite {
        let g = raios_com_cursor(f, Some(tabela[ps[0].last()].tempo));
        lema_percurso_raios(tabela, g, entre, ps.drop_first());
        assert(base_raios(tabela, g, entre) =~= base_raios(tabela, f, entre));
    }
}

/// Paginação de raios: seguindo o cursor, nenhuma linha se repete, só vêm
/// linhas que o filtro pede, e na ordem do mais novo ao mais antigo. Se os
/// `tempo` das linhas pedidas são todos diferentes, nenhuma linha se perde.
pub proof fn lei_paginacao_raios<F>(
    tabela: Seq<raios::Model<F>>,
    f: ListarRaiosFiltro<F>,
    entre: spec_fn(F, F, F) -> bool,
    ps: Seq<Seq<int>>,
)
    requires
        f.limite > 0,
        percurso_raios(tabela, f, entre, ps),
    ensures
        linhas_vistas(ps).no_duplicates(),
        forall|i: int|
            0 <= i < linhas_vistas(ps).len() ==> {
                let x = #[trigger] linhas_vistas(ps)[i];
                0 <= x < tabela.len() && casa_raio(f, entre, tabela[x])
            },
        forall|i: int, j: int|
            0 <= i < j < linhas_vistas(ps).len() ==> tabela[
            #[trigger] linhas_vistas(ps)[i]].tempo.nanos >= tabela[
            #[trigger] linhas_vistas(ps)[j]].tempo.nanos,
        (forall|x: int, y: int|
            0 <= x < y < tabela.len() && casa_raio(
                raios_com_cursor(f, None),
                entre,
                #[trigger] tabela[x],
            ) && casa_raio(raios_com_cursor(f, None), entre, #[trigger] tabela[y])
                ==> tabela[x].tempo.nanos != tabela[y].tempo.nanos) ==> forall|x: int|
            0 <= x < tabela.len() && casa_raio(f, entre, #[trigger] tabela[x]) ==> linhas_vistas(
                ps,
            ).contains(x),
{
    let tempo = |i: int| tabela[i].tempo.nanos as int;
    let base = base_raios(tabela, f, entre);
    let alvo = ate_cursor(base, tempo, nanos_do_cursor(f.cursor));
    let v = linhas_vistas(ps);
    lema_percurso_raios(tabela, f, entre, ps);
    lema_percurso(base, tempo, f.limite as int, nanos_do_cursor(f.cursor), ps);
    assert forall|i: int| 0 <= i < v.len() implies {
        let x = #[trigger] v[i];
        0 <= x < tabela.len() && casa_raio(f, entre, tabela[x])
    } by {
        assert(alvo(v[i]));
    }
    assert forall|i: int, j: int| 0 <= i < j < v.len() implies tabela[
    #[trigger] v[i]].tempo.nanos >= tabela[#[trigger] v[j]].tempo.nanos by {
        assert(tempo(v[i]) >= tempo(v[j]));
    }
    if forall|x: int, y: int|
        0 <= x < y < tabela.len() && casa_raio(raios_com_cursor(f, None), entre, #[trigger] tabela[x])
            && casa_raio(raios_com_cursor(f, None), entre, #[trigger] tabela[y])
            ==> tabela[x].tempo.nanos != tabela[y].tempo.nanos {
        assert forall|x: int, y: int|
            #![trigger base(x), base(y)]
            base(x) && base(y) && x != y implies tempo(x) != tempo(y) by {
            assert(casa_raio(raios_com_cursor(f, None), entre, tabela[x]));
            assert(casa_raio(raios_com_cursor(f, None), entre, tabela[y]));
        }
        assert forall|x: int|
            0 <= x < tabela.len() && casa_raio(
                f,
                entre,
                #[trigger] tabela[x],
            ) implies v.contains(x) by {
            assert(alvo(x));
        }
    }
}

} // verus!
