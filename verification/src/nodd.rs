//! Convenções de chave do NODD (`noaa-goes19`).
//!
//! Layout de origem: `<Produto>/<AAAA>/<DDD>/<HH>/<arquivo>.nc`
//! onde DDD = dia juliano (dia-do-ano, 1..=366) e HH = hora UTC.

use crate::config::ProductConfig;
use crate::momento;
use crate::momento::Momento;
use crate::ordem;
use crate::texto;
use vstd::prelude::*;

verus! {

broadcast use vstd::string::group_string_axioms;

// ---------------------------------------------------------------------------
// Modelos
// ---------------------------------------------------------------------------

/// `AAAA/DDD/HH` de uma hora (contada desde 1970-01-01T00Z).
pub open spec fn data_da_hora(hora: int) -> Seq<char> {
    texto::inteiro_com_zeros(momento::ano_do_dia(hora / 24), 4) + "/"@
        + texto::inteiro_com_zeros(momento::ordinal_do_dia(hora / 24), 3) + "/"@
        + texto::inteiro_com_zeros(hora % 24, 2)
}

/// O prefixo de uma hora UTC no bucket de origem:
/// `<source_prefix>/AAAA/DDD/HH/`, sem barras repetidas depois do prefixo.
pub open spec fn prefixo_da_hora(source_prefix: Seq<char>, hora: int) -> Seq<char> {
    texto::apara_fim(source_prefix, '/') + "/"@ + data_da_hora(hora) + "/"@
}

/// Os segmentos não vazios de uma chave.
pub open spec fn segmentos(chave: Seq<char>) -> Seq<Seq<char>> {
    texto::nao_vazios(texto::partes(chave, '/'))
}

/// O nome do arquivo na chave de origem, sem a extensão `.nc`.
pub open spec fn nome_base(chave: Seq<char>) -> Seq<char> {
    let p = segmentos(chave);
    let nome = if p.len() > 0 {
        p.last()
    } else {
        "output.nc"@
    };
    if texto::termina_com(nome, ".nc"@) {
        nome.take(nome.len() - ".nc"@.len())
    } else {
        nome
    }
}

/// Os três segmentos imediatamente antes do nome do arquivo, ou vazio se a
/// chave não os tem.
pub open spec fn data_da_chave(chave: Seq<char>) -> Seq<char> {
    let p = segmentos(chave);
    if p.len() >= 4 {
        texto::junta(p.subrange(p.len() - 4, p.len() - 1), "/"@)
    } else {
        Seq::<char>::empty()
    }
}

/// O prefixo normalizado do produto no destino.
pub open spec fn prefixo_destino(nome: Seq<char>, dest_prefix: Seq<char>) -> Seq<char> {
    let raiz = texto::apara_fim(texto::apara_inicio(dest_prefix, '/'), '/');
    if raiz.len() == 0 {
        "goes19/"@ + nome
    } else {
        raiz + "/goes19/"@ + nome
    }
}

/// A chave de destino de uma chave de origem.
pub open spec fn chave_destino(
    nome: Seq<char>,
    dest_prefix: Seq<char>,
    chave: Seq<char>,
) -> Seq<char> {
    let prefixo = prefixo_destino(nome, dest_prefix);
    let data = data_da_chave(chave);
    if data.len() == 0 {
        prefixo + "/"@ + nome_base(chave) + ".pmtiles"@
    } else {
        prefixo + "/"@ + data + "/"@ + nome_base(chave) + ".pmtiles"@
    }
}

/// O momento que um token de tempo escreve: `AAAADDDHHMMSS` e, opcional, o
/// décimo de segundo. O que vier depois é ignorado.
pub open spec fn tempo_nodd(s: Seq<char>) -> Option<Momento> {
    if s.len() < 13 || !texto::so_digitos(s.take(13)) {
        None
    } else {
        let ano = texto::valor(s.subrange(0, 4));
        let dia = texto::valor(s.subrange(4, 7));
        let h = texto::valor(s.subrange(7, 9));
        let m = texto::valor(s.subrange(9, 11));
        let seg = texto::valor(s.subrange(11, 13));
        let ms = if s.len() >= 14 && texto::e_digito(s[13]) {
            (s[13] as int - 48) * 100
        } else {
            0
        };
        if 1 <= dia <= momento::dias_no_ano(ano) && h < 24 && m < 60 && seg < 60 {
            Some(momento::em_utc(momento::relogio(ano, dia, h, m, seg, ms)))
        } else {
            None
        }
    }
}

/// O tempo do primeiro token que começa por `letra` e parseia.
pub open spec fn primeiro_tempo(tokens: Seq<Seq<char>>, letra: char) -> Option<Momento>
    decreases tokens.len(),
{
    if tokens.len() == 0 {
        None
    } else {
        match primeiro_tempo(tokens.drop_last(), letra) {
            Some(t) => Some(t),
            None => if tokens.last().len() > 0 && tokens.last()[0] == letra {
                tempo_nodd(tokens.last().skip(1))
            } else {
                None
            },
        }
    }
}

/// Um token de tempo: `AAAADDDHHMMSSm`.
pub open spec fn token(ano: int, dia: int, h: int, m: int, s: int, decimo: int) -> Seq<char> {
    texto::inteiro_com_zeros(ano, 4) + texto::inteiro_com_zeros(dia, 3)
        + texto::inteiro_com_zeros(h, 2) + texto::inteiro_com_zeros(m, 2)
        + texto::inteiro_com_zeros(s, 2) + texto::inteiro_com_zeros(decimo, 1)
}

// ---------------------------------------------------------------------------
// Leis
// ---------------------------------------------------------------------------

/// Horas diferentes têm datas `AAAA/DDD/HH` diferentes.
pub proof fn lei_datas_distintas(a: int, b: int)
    requires
        data_da_hora(a) == data_da_hora(b),
    ensures
        a == b,
{
    reveal_strlit("/");
    let ya = texto::inteiro_com_zeros(momento::ano_do_dia(a / 24), 4);
    let yb = texto::inteiro_com_zeros(momento::ano_do_dia(b / 24), 4);
    let oa = texto::inteiro_com_zeros(momento::ordinal_do_dia(a / 24), 3);
    let ob = texto::inteiro_com_zeros(momento::ordinal_do_dia(b / 24), 3);
    let ha = texto::inteiro_com_zeros(a % 24, 2);
    let hb = texto::inteiro_com_zeros(b % 24, 2);
    momento::lema_dia_civil(a / 24);
    momento::lema_dia_civil(b / 24);
    texto::lema_largura(momento::ordinal_do_dia(a / 24), 3);
    texto::lema_largura(momento::ordinal_do_dia(b / 24), 3);
    texto::lema_largura(a % 24, 2);
    texto::lema_largura(b % 24, 2);
    let s = data_da_hora(a);
    let n = ya.len() as int;
    assert(s.len() == ya.len() + 7);
    assert(data_da_hora(b).len() == yb.len() + 7);
    assert(yb.len() == n);
    assert(ya =~= s.take(n));
    assert(yb =~= s.take(n));
    assert(oa =~= s.subrange(n + 1, n + 4));
    assert(ob =~= s.subrange(n + 1, n + 4));
    assert(ha =~= s.subrange(n + 5, n + 7));
    assert(hb =~= s.subrange(n + 5, n + 7));
    texto::lema_com_zeros_injetivo(
        momento::ano_do_dia(a / 24),
        momento::ano_do_dia(b / 24),
        4,
    );
    texto::lema_com_zeros_injetivo(
        momento::ordinal_do_dia(a / 24),
        momento::ordinal_do_dia(b / 24),
        3,
    );
    texto::lema_com_zeros_injetivo(a % 24, b % 24, 2);
}

/// Os prefixos de um produto em horas diferentes são diferentes.
pub proof fn lei_prefixos_distintos(source_prefix: Seq<char>, a: int, b: int)
    requires
        prefixo_da_hora(source_prefix, a) == prefixo_da_hora(source_prefix, b),
    ensures
        a == b,
{
    reveal_strlit("/");
    let p = texto::apara_fim(source_prefix, '/') + "/"@;
    let s = prefixo_da_hora(source_prefix, a);
    let n = p.len() as int;
    assert(data_da_hora(a) =~= s.subrange(n, s.len() - 1));
    assert(data_da_hora(b) =~= s.subrange(n, s.len() - 1));
    lei_datas_distintas(a, b);
}

/// Os trechos de `AAAA/DDD/HH/<nome>`.
proof fn lema_partes_data(hora: int, nome: Seq<char>)
    requires
        !nome.contains('/'),
    ensures
        texto::partes(data_da_hora(hora) + "/"@ + nome, '/') == seq![
            texto::inteiro_com_zeros(momento::ano_do_dia(hora / 24), 4),
            texto::inteiro_com_zeros(momento::ordinal_do_dia(hora / 24), 3),
            texto::inteiro_com_zeros(hora % 24, 2),
            nome,
        ],
{
    reveal_strlit("/");
    let y = texto::inteiro_com_zeros(momento::ano_do_dia(hora / 24), 4);
    let o = texto::inteiro_com_zeros(momento::ordinal_do_dia(hora / 24), 3);
    let h = texto::inteiro_com_zeros(hora % 24, 2);
    texto::lema_inteiro_sem_barra(momento::ano_do_dia(hora / 24), 4);
    texto::lema_inteiro_sem_barra(momento::ordinal_do_dia(hora / 24), 3);
    texto::lema_inteiro_sem_barra(hora % 24, 2);
    texto::lema_partes_sem_separador(y, '/');
    texto::lema_partes_sem_separador(o, '/');
    texto::lema_partes_sem_separador(h, '/');
    texto::lema_partes_sem_separador(nome, '/');
    let b3 = h.push('/') + nome;
    let b2 = o.push('/') + b3;
    let b1 = y.push('/') + b2;
    texto::lema_partes_concat(h, '/', nome);
    texto::lema_partes_concat(o, '/', b3);
    texto::lema_partes_concat(y, '/', b2);
    assert(data_da_hora(hora) + "/"@ + nome =~= b1);
    assert(texto::partes(b1, '/') =~= seq![y, o, h, nome]);
}

/// Uma chave de origem no layout do NODD vai para o destino com a mesma data
/// (`AAAA/DDD/HH`) e o mesmo nome base, sob o prefixo do produto e com a
/// extensão `.pmtiles`.
pub proof fn lei_destino_da_origem(
    produto: Seq<char>,
    source_prefix: Seq<char>,
    dest_prefix: Seq<char>,
    hora: int,
    nome: Seq<char>,
)
    requires
        !nome.contains('/'),
    ensures
        chave_destino(produto, dest_prefix, prefixo_da_hora(source_prefix, hora) + nome + ".nc"@)
            == prefixo_destino(produto, dest_prefix) + "/"@ + data_da_hora(hora) + "/"@ + nome
            + ".pmtiles"@,
{
    reveal_strlit("/");
    reveal_strlit(".nc");
    let raiz = texto::apara_fim(source_prefix, '/');
    let arquivo = nome + ".nc"@;
    let chave = prefixo_da_hora(source_prefix, hora) + nome + ".nc"@;
    let y = texto::inteiro_com_zeros(momento::ano_do_dia(hora / 24), 4);
    let o = texto::inteiro_com_zeros(momento::ordinal_do_dia(hora / 24), 3);
    let h = texto::inteiro_com_zeros(hora % 24, 2);
    texto::lema_inteiro_sem_barra(momento::ano_do_dia(hora / 24), 4);
    texto::lema_inteiro_sem_barra(momento::ordinal_do_dia(hora / 24), 3);
    texto::lema_inteiro_sem_barra(hora % 24, 2);
    assert(!arquivo.contains('/')) by {
        if arquivo.contains('/') {
            let k = choose|k: int| 0 <= k < arquivo.len() && arquivo[k] == '/';
            if k < nome.len() {
                assert(nome[k] == '/');
            }
        }
    }
    lema_partes_data(hora, arquivo);
    let resto = data_da_hora(hora) + "/"@ + arquivo;
    texto::lema_partes_concat(raiz, '/', resto);
    assert(chave =~= raiz.push('/') + resto);
    let pr = texto::partes(raiz, '/');
    assert(texto::partes(chave, '/') =~= pr.push(y).push(o).push(h).push(arquivo));
    texto::lema_nao_vazios_push(pr, y);
    texto::lema_nao_vazios_push(pr.push(y), o);
    texto::lema_nao_vazios_push(pr.push(y).push(o), h);
    texto::lema_nao_vazios_push(pr.push(y).push(o).push(h), arquivo);
    let seg = segmentos(chave);
    assert(seg == texto::nao_vazios(pr).push(y).push(o).push(h).push(arquivo));
    assert(arquivo.skip(arquivo.len() - 3) =~= ".nc"@);
    assert(arquivo.take(arquivo.len() - 3) =~= nome);
    let meio = seg.subrange(seg.len() - 4, seg.len() - 1);
    assert(meio =~= seq![y, o, h]);
    assert(meio.drop_last() =~= seq![y, o]);
    assert(meio.drop_last().drop_last() =~= seq![y]);
    reveal_with_fuel(texto::junta, 4);
    assert(texto::junta(meio, "/"@) =~= data_da_hora(hora));
}

/// Frames diferentes de um produto nunca disputam a mesma chave de destino.
pub proof fn lei_destinos_distintos(
    produto: Seq<char>,
    source_prefix: Seq<char>,
    dest_prefix: Seq<char>,
    hora_a: int,
    nome_a: Seq<char>,
    hora_b: int,
    nome_b: Seq<char>,
)
    requires
        !nome_a.contains('/'),
        !nome_b.contains('/'),
        chave_destino(
            produto,
            dest_prefix,
            prefixo_da_hora(source_prefix, hora_a) + nome_a + ".nc"@,
        ) == chave_destino(
            produto,
            dest_prefix,
            prefixo_da_hora(source_prefix, hora_b) + nome_b + ".nc"@,
        ),
    ensures
        hora_a == hora_b,
        nome_a == nome_b,
{
    reveal_strlit("/");
    reveal_strlit(".pmtiles");
    lei_destino_da_origem(produto, source_prefix, dest_prefix, hora_a, nome_a);
    lei_destino_da_origem(produto, source_prefix, dest_prefix, hora_b, nome_b);
    let p = prefixo_destino(produto, dest_prefix) + "/"@;
    let ca = p + data_da_hora(hora_a) + "/"@ + nome_a + ".pmtiles"@;
    let cb = p + data_da_hora(hora_b) + "/"@ + nome_b + ".pmtiles"@;
    assert(ca == cb);
    let n = p.len() as int;
    let corpo = ca.subrange(n, ca.len() - 8);
    assert(data_da_hora(hora_a) + "/"@ + nome_a =~= corpo);
    assert(data_da_hora(hora_b) + "/"@ + nome_b =~= corpo);
    lema_partes_data(hora_a, nome_a);
    lema_partes_data(hora_b, nome_b);
    let t = texto::partes(corpo, '/');
    assert(t[0] == texto::inteiro_com_zeros(momento::ano_do_dia(hora_b / 24), 4));
    assert(t[1] == texto::inteiro_com_zeros(momento::ordinal_do_dia(hora_b / 24), 3));
    assert(t[2] == texto::inteiro_com_zeros(hora_b % 24, 2));
    assert(t[3] == nome_b);
    assert(data_da_hora(hora_a) == data_da_hora(hora_b));
    lei_datas_distintas(hora_a, hora_b);
}

/// Um token escrito com data e hora válidas lê-se de volta no mesmo instante,
/// até o décimo de segundo.
pub proof fn lei_token(ano: int, dia: int, h: int, m: int, s: int, decimo: int)
    requires
        0 <= ano <= 9999,
        1 <= dia <= momento::dias_no_ano(ano),
        0 <= h < 24,
        0 <= m < 60,
        0 <= s < 60,
        0 <= decimo < 10,
    ensures
        tempo_nodd(token(ano, dia, h, m, s, decimo)) == Some(
            momento::em_utc(momento::relogio(ano, dia, h, m, s, decimo * 100)),
        ),
{
    let t = token(ano, dia, h, m, s, decimo);
    texto::lema_largura(ano, 4);
    texto::lema_largura(dia, 3);
    texto::lema_largura(h, 2);
    texto::lema_largura(m, 2);
    texto::lema_largura(s, 2);
    texto::lema_largura(decimo, 1);
    let td = texto::inteiro_com_zeros(decimo, 1);
    assert(t.len() == 14);
    assert(t.subrange(0, 4) =~= texto::inteiro_com_zeros(ano, 4));
    assert(t.subrange(4, 7) =~= texto::inteiro_com_zeros(dia, 3));
    assert(t.subrange(7, 9) =~= texto::inteiro_com_zeros(h, 2));
    assert(t.subrange(9, 11) =~= texto::inteiro_com_zeros(m, 2));
    assert(t.subrange(11, 13) =~= texto::inteiro_com_zeros(s, 2));
    assert(t[13] == td[0]);
    assert(texto::e_digito(td[0]));
    assert(td.drop_last() =~= Seq::<char>::empty());
    reveal_with_fuel(texto::valor, 2);
    assert(td[0] as int - 48 == decimo);
    assert forall|i: int| 0 <= i < 13 implies texto::e_digito(#[trigger] t.take(13)[i]) by {
        if i < 4 {
            assert(t[i] == texto::inteiro_com_zeros(ano, 4)[i]);
        } else if i < 7 {
            assert(t[i] == texto::inteiro_com_zeros(dia, 3)[i - 4]);
        } else if i < 9 {
            assert(t[i] == texto::inteiro_com_zeros(h, 2)[i - 7]);
        } else if i < 11 {
            assert(t[i] == texto::inteiro_com_zeros(m, 2)[i - 9]);
        } else {
            assert(t[i] == texto::inteiro_com_zeros(s, 2)[i - 11]);
        }
    }
}

/// Os treze algarismos `AAAADDDHHMMSS`.
pub open spec fn treze(ano: int, dia: int, h: int, m: int, s: int) -> Seq<char> {
    texto::inteiro_com_zeros(ano, 4) + texto::inteiro_com_zeros(dia, 3)
        + texto::inteiro_com_zeros(h, 2) + texto::inteiro_com_zeros(m, 2)
        + texto::inteiro_com_zeros(s, 2)
}

/// O que os treze algarismos de um token valem, seja qual for o resto: o token
/// traz um tempo exatamente se o dia existe no ano e a hora existe no dia; o
/// tempo é o desse calendário, mais um décimo de segundo por unidade do
/// algarismo seguinte, se há um.
pub proof fn lei_token_com_resto(ano: int, dia: int, h: int, m: int, s: int, resto: Seq<char>)
    requires
        0 <= ano <= 9999,
        0 <= dia <= 999,
        0 <= h <= 99,
        0 <= m <= 99,
        0 <= s <= 99,
    ensures
        tempo_nodd(treze(ano, dia, h, m, s) + resto) is Some <==> 1 <= dia
            <= momento::dias_no_ano(ano) && h < 24 && m < 60 && s < 60,
        tempo_nodd(treze(ano, dia, h, m, s) + resto) matches Some(t) ==> {
            &&& t.deslocamento == 0
            &&& resto.len() == 0 || !('0' <= resto[0] <= '9') ==> t == momento::em_utc(
                momento::relogio(ano, dia, h, m, s, 0),
            )
            &&& resto.len() > 0 && '0' <= resto[0] <= '9' ==> t == momento::em_utc(
                momento::relogio(ano, dia, h, m, s, (resto[0] as int - 48) * 100),
            )
        },
{
    let t = treze(ano, dia, h, m, s) + resto;
    texto::lema_largura(ano, 4);
    texto::lema_largura(dia, 3);
    texto::lema_largura(h, 2);
    texto::lema_largura(m, 2);
    texto::lema_largura(s, 2);
    assert(treze(ano, dia, h, m, s).len() == 13);
    assert(t.subrange(0, 4) =~= texto::inteiro_com_zeros(ano, 4));
    assert(t.subrange(4, 7) =~= texto::inteiro_com_zeros(dia, 3));
    assert(t.subrange(7, 9) =~= texto::inteiro_com_zeros(h, 2));
    assert(t.subrange(9, 11) =~= texto::inteiro_com_zeros(m, 2));
    assert(t.subrange(11, 13) =~= texto::inteiro_com_zeros(s, 2));
    assert(resto.len() > 0 ==> t[13] == resto[0]);
    assert forall|i: int| 0 <= i < 13 implies texto::e_digito(#[trigger] t.take(13)[i]) by {
        if i < 4 {
            assert(t[i] == texto::inteiro_com_zeros(ano, 4)[i]);
        } else if i < 7 {
            assert(t[i] == texto::inteiro_com_zeros(dia, 3)[i - 4]);
        } else if i < 9 {
            assert(t[i] == texto::inteiro_com_zeros(h, 2)[i - 7]);
        } else if i < 11 {
            assert(t[i] == texto::inteiro_com_zeros(m, 2)[i - 9]);
        } else {
            assert(t[i] == texto::inteiro_com_zeros(s, 2)[i - 11]);
        }
    }
}

/// Só treze algarismos à frente dão um tempo, e são os de uma data e uma hora
/// que existem.
pub proof fn lei_tempo_escrito(s: Seq<char>) -> (t: (int, int, int, int, int))
    requires
        tempo_nodd(s) is Some,
    ensures
        s.len() >= 13,
        s.take(13) == treze(t.0, t.1, t.2, t.3, t.4),
        0 <= t.0 <= 9999,
        1 <= t.1 <= momento::dias_no_ano(t.0),
        0 <= t.2 < 24,
        0 <= t.3 < 60,
        0 <= t.4 < 60,
{
    let d = s.take(13);
    let a = d.subrange(0, 4);
    let o = d.subrange(4, 7);
    let h = d.subrange(7, 9);
    let m = d.subrange(9, 11);
    let g = d.subrange(11, 13);
    assert(s.subrange(0, 4) =~= a);
    assert(s.subrange(4, 7) =~= o);
    assert(s.subrange(7, 9) =~= h);
    assert(s.subrange(9, 11) =~= m);
    assert(s.subrange(11, 13) =~= g);
    lema_campo_escrito(d, 0, 4);
    lema_campo_escrito(d, 4, 7);
    lema_campo_escrito(d, 7, 9);
    lema_campo_escrito(d, 9, 11);
    lema_campo_escrito(d, 11, 13);
    assert(d =~= a + o + h + m + g);
    (texto::valor(a), texto::valor(o), texto::valor(h), texto::valor(m), texto::valor(g))
}

/// Dois a quatro algarismos são o seu valor escrito na mesma largura.
proof fn lema_campo_escrito(d: Seq<char>, de: int, ate: int)
    requires
        texto::so_digitos(d),
        0 <= de <= ate <= d.len(),
        2 <= ate - de <= 4,
    ensures
        0 <= texto::valor(d.subrange(de, ate)) <= 9999,
        d.subrange(de, ate) == texto::inteiro_com_zeros(
            texto::valor(d.subrange(de, ate)),
            ate - de,
        ),
{
    let c = d.subrange(de, ate);
    assert forall|i: int| 0 <= i < c.len() implies texto::e_digito(#[trigger] c[i]) by {
        assert(texto::e_digito(d[de + i]));
    }
    lema_campo_pequeno(d, de, ate);
    reveal_with_fuel(texto::valor, 5);
    let n = c.len() as int;
    assert(texto::e_digito(c[n - 1]) && texto::e_digito(c[n - 2]));
    if n > 2 {
        assert(texto::e_digito(c[n - 3]));
    }
    texto::lema_largura(texto::valor(c), n);
    ordem::lema_mesmo_valor(c, texto::inteiro_com_zeros(texto::valor(c), n));
}

/// O que um nome `..._s<token>_e<token>_...` diz: o início é o do token `s`, e o
/// fim o do token `e`, se nada antes deles traz um tempo.
pub proof fn lei_tempos_do_nome(
    antes: Seq<char>,
    a: (int, int, int, int, int, int),
    b: (int, int, int, int, int, int),
    depois: Seq<char>,
)
    requires
        0 <= a.0 <= 9999,
        1 <= a.1 <= momento::dias_no_ano(a.0),
        0 <= a.2 < 24,
        0 <= a.3 < 60,
        0 <= a.4 < 60,
        0 <= a.5 < 10,
        0 <= b.0 <= 9999,
        1 <= b.1 <= momento::dias_no_ano(b.0),
        0 <= b.2 < 24,
        0 <= b.3 < 60,
        0 <= b.4 < 60,
        0 <= b.5 < 10,
        forall|i: int|
            0 <= i < texto::partes(antes, '_').len() ==> !traz_tempo(
                #[trigger] texto::partes(antes, '_')[i],
                's',
            ) && !traz_tempo(texto::partes(antes, '_')[i], 'e'),
    ensures
        ({
            let nome = antes + "_s"@ + token(a.0, a.1, a.2, a.3, a.4, a.5) + "_e"@ + token(
                b.0,
                b.1,
                b.2,
                b.3,
                b.4,
                b.5,
            ) + "_"@ + depois;
            let p = texto::partes(nome, '_');
            &&& primeiro_tempo(p, 's') == Some(
                momento::em_utc(momento::relogio(a.0, a.1, a.2, a.3, a.4, a.5 * 100)),
            )
            &&& primeiro_tempo(p, 'e') == Some(
                momento::em_utc(momento::relogio(b.0, b.1, b.2, b.3, b.4, b.5 * 100)),
            )
        }),
{
    let ta = token(a.0, a.1, a.2, a.3, a.4, a.5);
    let tb = token(b.0, b.1, b.2, b.3, b.4, b.5);
    lei_token(a.0, a.1, a.2, a.3, a.4, a.5);
    lei_token(b.0, b.1, b.2, b.3, b.4, b.5);
    lema_token_sem_separador(a.0, a.1, a.2, a.3, a.4, a.5);
    lema_token_sem_separador(b.0, b.1, b.2, b.3, b.4, b.5);
    lema_tempos_entre_separadores(antes, ta, tb, depois);
}

/// O mesmo, com dois textos quaisquer que tragam tempo.
proof fn lema_tempos_entre_separadores(
    antes: Seq<char>,
    ta: Seq<char>,
    tb: Seq<char>,
    depois: Seq<char>,
)
    requires
        tempo_nodd(ta) is Some,
        tempo_nodd(tb) is Some,
        forall|i: int| 0 <= i < ta.len() ==> #[trigger] ta[i] != '_',
        forall|i: int| 0 <= i < tb.len() ==> #[trigger] tb[i] != '_',
        forall|i: int|
            0 <= i < texto::partes(antes, '_').len() ==> !traz_tempo(
                #[trigger] texto::partes(antes, '_')[i],
                's',
            ) && !traz_tempo(texto::partes(antes, '_')[i], 'e'),
    ensures
        ({
            let p = texto::partes(antes + "_s"@ + ta + "_e"@ + tb + "_"@ + depois, '_');
            &&& primeiro_tempo(p, 's') == tempo_nodd(ta)
            &&& primeiro_tempo(p, 'e') == tempo_nodd(tb)
        }),
{
    let sa = seq!['s'] + ta;
    let eb = seq!['e'] + tb;
    let nome = antes + "_s"@ + ta + "_e"@ + tb + "_"@ + depois;
    let r2 = eb.push('_') + depois;
    let r1 = sa.push('_') + r2;
    assert(nome =~= antes.push('_') + r1) by {
        reveal_strlit("_s");
        reveal_strlit("_e");
        reveal_strlit("_");
    }
    assert(!sa.contains('_')) by {
        assert forall|i: int| 0 <= i < sa.len() implies sa[i] != '_' by {
            if i > 0 {
                assert(sa[i] == ta[i - 1]);
            }
        }
    }
    assert(!eb.contains('_')) by {
        assert forall|i: int| 0 <= i < eb.len() implies eb[i] != '_' by {
            if i > 0 {
                assert(eb[i] == tb[i - 1]);
            }
        }
    }
    texto::lema_partes_concat(antes, '_', r1);
    texto::lema_partes_concat(sa, '_', r2);
    texto::lema_partes_concat(eb, '_', depois);
    texto::lema_partes_sem_separador(sa, '_');
    texto::lema_partes_sem_separador(eb, '_');
    let p = texto::partes(nome, '_');
    let pa = texto::partes(antes, '_');
    let n = pa.len() as int;
    assert(p == pa + (seq![sa] + (seq![eb] + texto::partes(depois, '_'))));
    assert(p[n] == sa);
    assert(p[n + 1] == eb);
    assert(sa.skip(1) =~= ta);
    assert(eb.skip(1) =~= tb);
    lei_primeiro_tempo(p, 's');
    lei_primeiro_tempo(p, 'e');
    assert forall|j: int| 0 <= j < n implies !traz_tempo(#[trigger] p[j], 's') && !traz_tempo(
        p[j],
        'e',
    ) by {
        assert(p[j] == pa[j]);
    }
    assert(traz_tempo(p[n], 's'));
    assert(!traz_tempo(p[n], 'e'));
    assert(traz_tempo(p[n + 1], 'e'));
}

/// Um token não tem separador: é só de algarismos.
proof fn lema_token_sem_separador(ano: int, dia: int, h: int, m: int, s: int, decimo: int)
    requires
        0 <= ano <= 9999,
        0 <= dia <= 999,
        0 <= h < 24,
        0 <= m < 60,
        0 <= s < 60,
        0 <= decimo < 10,
    ensures
        forall|i: int|
            0 <= i < token(ano, dia, h, m, s, decimo).len() ==> #[trigger] token(
                ano,
                dia,
                h,
                m,
                s,
                decimo,
            )[i] != '_',
{
    let t = token(ano, dia, h, m, s, decimo);
    texto::lema_largura(ano, 4);
    texto::lema_largura(dia, 3);
    texto::lema_largura(h, 2);
    texto::lema_largura(m, 2);
    texto::lema_largura(s, 2);
    texto::lema_largura(decimo, 1);
    assert forall|i: int| 0 <= i < t.len() implies #[trigger] t[i] != '_' by {
        if i < 4 {
            assert(texto::e_digito(texto::inteiro_com_zeros(ano, 4)[i]));
        } else if i < 7 {
            assert(texto::e_digito(texto::inteiro_com_zeros(dia, 3)[i - 4]));
        } else if i < 9 {
            assert(texto::e_digito(texto::inteiro_com_zeros(h, 2)[i - 7]));
        } else if i < 11 {
            assert(texto::e_digito(texto::inteiro_com_zeros(m, 2)[i - 9]));
        } else if i < 13 {
            assert(texto::e_digito(texto::inteiro_com_zeros(s, 2)[i - 11]));
        } else {
            assert(texto::e_digito(texto::inteiro_com_zeros(decimo, 1)[i - 13]));
        }
    }
}

/// O prefixo de destino: barras em volta do prefixo configurado não contam; sem
/// prefixo, fica só `goes19/<produto>`.
pub proof fn lei_prefixo_destino(nome: Seq<char>, raiz: Seq<char>, antes: nat, depois: nat)
    requires
        raiz.len() > 0 ==> raiz[0] != '/' && raiz.last() != '/',
    ensures
        ({
            let barras = |n: nat| Seq::new(n, |i: int| '/');
            &&& raiz.len() > 0 ==> prefixo_destino(nome, barras(antes) + raiz + barras(depois))
                == raiz + "/goes19/"@ + nome
            &&& prefixo_destino(nome, barras(antes)) == "goes19/"@ + nome
        }),
{
    let a = Seq::new(antes, |i: int| '/');
    let d = Seq::new(depois, |i: int| '/');
    let s = a + raiz + d;
    texto::lei_apara_inicio(a, '/');
    let ra = texto::apara_inicio(a, '/');
    if ra.len() > 0 {
        assert(a[a.len() - ra.len()] == '/');
    }
    texto::lei_apara_fim(ra, '/');
    if raiz.len() > 0 {
        texto::lei_apara_inicio(s, '/');
        let r = texto::apara_inicio(s, '/');
        let k = s.len() - r.len();
        assert(s[a.len() as int] == raiz[0]);
        assert(k <= a.len());
        if k < a.len() {
            assert(s[k] == '/');
            assert(r[0] == s[k]);
        }
        assert(r =~= raiz + d);
        texto::lei_apara_fim(r, '/');
        let q = texto::apara_fim(r, '/');
        assert(r[raiz.len() - 1] == raiz.last());
        assert(q.len() >= raiz.len());
        if q.len() > raiz.len() {
            assert(r[q.len() - 1] == '/');
            assert(q.last() == r[q.len() - 1]);
        }
        assert(q =~= raiz);
    }
}

/// Uma chave sem os segmentos de data vai para a raiz do produto: só o nome,
/// com a extensão `.nc` trocada.
pub proof fn lei_destino_sem_data(produto: Seq<char>, dest_prefix: Seq<char>, nome: Seq<char>)
    requires
        !nome.contains('/'),
        nome.len() > 0,
    ensures
        chave_destino(produto, dest_prefix, nome + ".nc"@) == prefixo_destino(produto, dest_prefix)
            + "/"@ + nome + ".pmtiles"@,
        !(nome.len() >= 3 && nome.skip(nome.len() - 3) == ".nc"@) ==> chave_destino(
            produto,
            dest_prefix,
            nome,
        ) == prefixo_destino(produto, dest_prefix) + "/"@ + nome + ".pmtiles"@,
{
    reveal_strlit(".nc");
    let arquivo = nome + ".nc"@;
    assert forall|i: int| 0 <= i < arquivo.len() implies arquivo[i] != '/' by {
        if i < nome.len() {
            assert(arquivo[i] == nome[i]);
        }
    }
    texto::lema_partes_sem_separador(arquivo, '/');
    texto::lema_partes_sem_separador(nome, '/');
    texto::lei_nao_vazios(seq![], seq![], arquivo);
    texto::lei_nao_vazios(seq![], seq![], nome);
    assert(arquivo.skip(arquivo.len() - 3) =~= ".nc"@);
    assert(arquivo.take(arquivo.len() - 3) =~= nome);
}

/// Os segmentos de uma chave em duas partes são os da primeira e depois os da
/// segunda: barras repetidas não contam. Um texto sem barra é um segmento só.
pub proof fn lei_segmentos(a: Seq<char>, b: Seq<char>)
    ensures
        segmentos(a + seq!['/'] + b) == segmentos(a) + segmentos(b),
        segmentos(Seq::<char>::empty()) == Seq::<Seq<char>>::empty(),
        a.len() > 0 && !a.contains('/') ==> segmentos(a) == seq![a],
{
    let vazio = Seq::<char>::empty();
    texto::lema_partes_concat(a, '/', b);
    assert(a + seq!['/'] + b =~= a.push('/') + b);
    texto::lei_nao_vazios(texto::partes(a, '/'), texto::partes(b, '/'), a);
    texto::lei_nao_vazios(texto::partes(a, '/'), texto::partes(b, '/'), vazio);
    texto::lema_partes_sem_separador(vazio, '/');
    if !a.contains('/') {
        texto::lema_partes_sem_separador(a, '/');
    }
}

/// O destino de uma chave qualquer, pelos seus segmentos: com quatro ou mais, os
/// três antes do último são a data; com menos, não há data; sem nenhum, o nome é
/// `output`. Do último sai a extensão `.nc`, uma vez, se houver.
pub proof fn lei_destino_por_segmentos(
    produto: Seq<char>,
    dest_prefix: Seq<char>,
    chave: Seq<char>,
    nome: Seq<char>,
)
    requires
        ({
            let p = segmentos(chave);
            &&& p.len() > 0 ==> p.last() == nome + ".nc"@ || p.last() == nome && !(nome.len() >= 3
                && nome.skip(nome.len() - 3) == ".nc"@)
            &&& p.len() == 0 ==> nome == "output"@
        }),
    ensures
        ({
            let p = segmentos(chave);
            let n = p.len() as int;
            let prefixo = prefixo_destino(produto, dest_prefix);
            &&& n < 4 ==> chave_destino(produto, dest_prefix, chave) == prefixo + "/"@ + nome
                + ".pmtiles"@
            &&& n >= 4 ==> chave_destino(produto, dest_prefix, chave) == prefixo + "/"@ + (p[n - 4]
                + "/"@ + p[n - 3] + "/"@ + p[n - 2]) + "/"@ + nome + ".pmtiles"@
        }),
{
    let p = segmentos(chave);
    let n = p.len() as int;
    assert(nome_base(chave) == nome) by {
        reveal_strlit(".nc");
        if n > 0 {
            if p.last() == nome + ".nc"@ {
                let t = nome + ".nc"@;
                assert(t.skip(t.len() - 3) =~= ".nc"@);
                assert(t.take(t.len() - 3) =~= nome);
            }
        } else {
            reveal_strlit("output");
            reveal_strlit("output.nc");
            let t = "output.nc"@;
            assert(t.skip(t.len() - 3) =~= ".nc"@);
            assert(t.take(t.len() - 3) =~= "output"@);
        }
    }
    if n >= 4 {
        reveal_strlit("/");
        let meio = p.subrange(n - 4, n - 1);
        assert(meio =~= seq![p[n - 4], p[n - 3], p[n - 2]]);
        assert(meio.drop_last() =~= seq![p[n - 4], p[n - 3]]);
        assert(meio.drop_last().drop_last() =~= seq![p[n - 4]]);
        reveal_with_fuel(texto::junta, 4);
        assert(texto::junta(meio, "/"@) =~= p[n - 4] + "/"@ + p[n - 3] + "/"@ + p[n - 2]);
    }
}

/// A raiz da origem não pesa no destino: duas origens que só diferem antes da
/// data levam ao mesmo destino.
pub proof fn lei_destino_sem_origem(
    produto: Seq<char>,
    dest_prefix: Seq<char>,
    origem_a: Seq<char>,
    origem_b: Seq<char>,
    hora: int,
    nome: Seq<char>,
)
    requires
        !nome.contains('/'),
    ensures
        chave_destino(produto, dest_prefix, prefixo_da_hora(origem_a, hora) + nome + ".nc"@)
            == chave_destino(produto, dest_prefix, prefixo_da_hora(origem_b, hora) + nome + ".nc"@),
{
    lei_destino_da_origem(produto, origem_a, dest_prefix, hora, nome);
    lei_destino_da_origem(produto, origem_b, dest_prefix, hora, nome);
}

/// Todo tempo lido de um nome é representável, e está em UTC.
pub proof fn lei_tempo_valido(s: Seq<char>)
    ensures
        tempo_nodd(s) matches Some(t) ==> t.valido() && t.utc_valido() && t.deslocamento == 0,
{
    if tempo_nodd(s) is Some {
        let d = s.take(13);
        assert(s.subrange(0, 4) =~= d.subrange(0, 4));
        assert(s.subrange(4, 7) =~= d.subrange(4, 7));
        assert(s.subrange(7, 9) =~= d.subrange(7, 9));
        assert(s.subrange(9, 11) =~= d.subrange(9, 11));
        assert(s.subrange(11, 13) =~= d.subrange(11, 13));
        lema_campo_pequeno(d, 0, 4);
        lema_campo_pequeno(d, 4, 7);
        lema_campo_pequeno(d, 7, 9);
        lema_campo_pequeno(d, 9, 11);
        lema_campo_pequeno(d, 11, 13);
        momento::lema_relogio(
            texto::valor(s.subrange(0, 4)),
            texto::valor(s.subrange(4, 7)),
            texto::valor(s.subrange(7, 9)),
            texto::valor(s.subrange(9, 11)),
            texto::valor(s.subrange(11, 13)),
            if s.len() >= 14 && texto::e_digito(s[13]) {
                (s[13] as int - 48) * 100
            } else {
                0
            },
        );
    }
}

/// Até quatro algarismos não passam de 9999.
proof fn lema_campo_pequeno(d: Seq<char>, de: int, ate: int)
    requires
        texto::so_digitos(d),
        0 <= de <= ate <= d.len(),
        ate - de <= 4,
    ensures
        0 <= texto::valor(d.subrange(de, ate)) <= 9999,
{
    let c = d.subrange(de, ate);
    assert forall|i: int| 0 <= i < c.len() implies texto::e_digito(#[trigger] c[i]) by {
        assert(texto::e_digito(d[de + i]));
    }
    reveal_with_fuel(texto::valor, 5);
    let n = c.len() as int;
    if n > 0 {
        assert(texto::e_digito(c[n - 1]));
    }
    if n > 1 {
        assert(texto::e_digito(c[n - 2]));
    }
    if n > 2 {
        assert(texto::e_digito(c[n - 3]));
    }
    if n > 3 {
        assert(texto::e_digito(c[n - 4]));
    }
}

/// O token começa por `letra` e traz um tempo.
pub open spec fn traz_tempo(tk: Seq<char>, letra: char) -> bool {
    tk.len() > 0 && tk[0] == letra && tempo_nodd(tk.skip(1)) is Some
}

/// O tempo de um nome é o do primeiro token da letra que traz um tempo; não há
/// tempo se nenhum traz. O que há é representável, e está em UTC.
pub proof fn lei_primeiro_tempo(tokens: Seq<Seq<char>>, letra: char)
    ensures
        primeiro_tempo(tokens, letra) is None <==> forall|i: int|
            0 <= i < tokens.len() ==> !traz_tempo(#[trigger] tokens[i], letra),
        forall|i: int|
            0 <= i < tokens.len() && traz_tempo(#[trigger] tokens[i], letra) && (forall|j: int|
                0 <= j < i ==> !traz_tempo(#[trigger] tokens[j], letra)) ==> primeiro_tempo(
                tokens,
                letra,
            ) == tempo_nodd(tokens[i].skip(1)),
        primeiro_tempo(tokens, letra) matches Some(t) ==> t.valido() && t.utc_valido()
            && t.deslocamento == 0,
    decreases tokens.len(),
{
    if tokens.len() > 0 {
        let n = tokens.len() - 1;
        let antes = tokens.drop_last();
        lei_primeiro_tempo(antes, letra);
        lei_tempo_valido(tokens.last().skip(1));
        assert forall|i: int| 0 <= i < n implies tokens[i] == #[trigger] antes[i] by {}
        assert(tokens[n] == tokens.last());
        if primeiro_tempo(antes, letra) is None {
            assert forall|i: int| 0 <= i < n implies !traz_tempo(#[trigger] tokens[i], letra) by {
                assert(!traz_tempo(antes[i], letra));
            }
        } else {
            let k = choose|k: int| 0 <= k < antes.len() && traz_tempo(#[trigger] antes[k], letra);
            assert(traz_tempo(tokens[k], letra));
        }
        assert forall|i: int|
            0 <= i < tokens.len() && traz_tempo(#[trigger] tokens[i], letra) && (forall|j: int|
                0 <= j < i ==> !traz_tempo(
                    #[trigger] tokens[j],
                    letra,
                )) implies primeiro_tempo(tokens, letra) == tempo_nodd(tokens[i].skip(1)) by {
            if i < n {
                assert(traz_tempo(antes[i], letra));
                assert forall|j: int| 0 <= j < i implies !traz_tempo(
                    #[trigger] antes[j],
                    letra,
                ) by {
                    assert(!traz_tempo(tokens[j], letra));
                }
            }
        }
    }
}

/// O prefixo de um instante é o do seu calendário UTC: ano com quatro
/// algarismos, dia do ano com três e hora com dois.
pub proof fn lei_prefixo_do_calendario(
    source_prefix: Seq<char>,
    ano: int,
    dia: int,
    h: int,
    m: int,
    s: int,
    ms: int,
)
    requires
        -9999 <= ano <= 9999,
        1 <= dia <= momento::dias_no_ano(ano),
        0 <= h < 24,
        0 <= m < 60,
        0 <= s < 60,
        0 <= ms < 1000,
    ensures
        prefixo_da_hora(
            source_prefix,
            momento::hora_de(momento::relogio(ano, dia, h, m, s, ms)),
        ) == texto::apara_fim(source_prefix, '/') + "/"@ + (texto::inteiro_com_zeros(ano, 4) + "/"@
            + texto::inteiro_com_zeros(dia, 3) + "/"@ + texto::inteiro_com_zeros(h, 2)) + "/"@,
{
    momento::lema_relogio(ano, dia, h, m, s, ms);
    momento::lema_civil_dia(ano, dia);
    lema_data_da_hora(momento::dia_unix(ano, dia), h);
}

/// A hora `h` do dia `d` tem o ano e o ordinal desse dia.
proof fn lema_data_da_hora(d: int, h: int)
    requires
        0 <= h < 24,
    ensures
        data_da_hora(d * 24 + h) == texto::inteiro_com_zeros(momento::ano_do_dia(d), 4) + "/"@
            + texto::inteiro_com_zeros(momento::ordinal_do_dia(d), 3) + "/"@
            + texto::inteiro_com_zeros(h, 2),
{
    assert((d * 24 + h) / 24 == d);
    assert((d * 24 + h) % 24 == h);
}

/// A data e a hora de um token.
pub open spec fn data_e_hora_validas(t: (int, int, int, int, int, int)) -> bool {
    &&& 0 <= t.0 <= 9999
    &&& 1 <= t.1 <= momento::dias_no_ano(t.0)
    &&& 0 <= t.2 < 24
    &&& 0 <= t.3 < 60
    &&& 0 <= t.4 < 60
    &&& 0 <= t.5 < 10
}

/// O instante da data e hora de um token (ano, dia do ano, hora, minuto,
/// segundo, décimo).
pub open spec fn instante_do_token(t: (int, int, int, int, int, int)) -> int {
    momento::relogio(t.0, t.1, t.2, t.3, t.4, t.5 * 100)
}

/// A ordem das chaves é a do tempo: entre nomes que só diferem do token de tempo
/// em diante, o mais antigo vem antes.
pub proof fn lei_ordem_cronologica(
    prefixo: Seq<char>,
    a: (int, int, int, int, int, int),
    b: (int, int, int, int, int, int),
    resto_a: Seq<char>,
    resto_b: Seq<char>,
)
    requires
        data_e_hora_validas(a),
        data_e_hora_validas(b),
        instante_do_token(a) < instante_do_token(b),
    ensures
        ordem::ate(
            prefixo + token(a.0, a.1, a.2, a.3, a.4, a.5) + resto_a,
            prefixo + token(b.0, b.1, b.2, b.3, b.4, b.5) + resto_b,
        ),
{
    lema_campos_crescem(a, b);
    lema_campos_em_ordem(a, b, resto_a, resto_b);
    lema_token_em_campos(prefixo, a, resto_a);
    lema_token_em_campos(prefixo, b, resto_b);
    ordem::lema_prefixo_comum(prefixo, campos(a, resto_a), campos(b, resto_b));
}

/// Os campos de um token, um após o outro, e o que vem depois dele.
spec fn campos(t: (int, int, int, int, int, int), resto: Seq<char>) -> Seq<char> {
    texto::inteiro_com_zeros(t.0, 4) + (texto::inteiro_com_zeros(t.1, 3) + horario(t, resto))
}

/// Os campos de horário de um token, e o que vem depois dele.
spec fn horario(t: (int, int, int, int, int, int), resto: Seq<char>) -> Seq<char> {
    texto::inteiro_com_zeros(t.2, 2) + (texto::inteiro_com_zeros(t.3, 2) + (
    texto::inteiro_com_zeros(t.4, 2) + (texto::inteiro_com_zeros(t.5, 1) + resto)))
}

/// Um token é a sequência dos seus campos.
proof fn lema_token_em_campos(
    prefixo: Seq<char>,
    t: (int, int, int, int, int, int),
    resto: Seq<char>,
)
    ensures
        prefixo + token(t.0, t.1, t.2, t.3, t.4, t.5) + resto == prefixo + campos(t, resto),
{
    lema_seis_partes(
        prefixo,
        texto::inteiro_com_zeros(t.0, 4),
        texto::inteiro_com_zeros(t.1, 3),
        texto::inteiro_com_zeros(t.2, 2),
        texto::inteiro_com_zeros(t.3, 2),
        texto::inteiro_com_zeros(t.4, 2),
        texto::inteiro_com_zeros(t.5, 1),
        resto,
    );
}

/// A concatenação é associativa.
proof fn lema_seis_partes(
    p: Seq<char>,
    a: Seq<char>,
    b: Seq<char>,
    c: Seq<char>,
    d: Seq<char>,
    e: Seq<char>,
    f: Seq<char>,
    r: Seq<char>,
)
    ensures
        p + (a + b + c + d + e + f) + r == p + (a + (b + (c + (d + (e + (f + r)))))),
{
    assert(e + f + r =~= e + (f + r));
    assert(a + b + c + d + e + f + r =~= a + (b + (c + (d + (e + (f + r))))));
    assert(p + (a + b + c + d + e + f) + r =~= p + (a + b + c + d + e + f + r));
}

/// Os campos do token mais antigo vêm antes.
proof fn lema_campos_em_ordem(
    a: (int, int, int, int, int, int),
    b: (int, int, int, int, int, int),
    ra: Seq<char>,
    rb: Seq<char>,
)
    requires
        data_e_hora_validas(a),
        data_e_hora_validas(b),
        campos_crescem(a, b),
    ensures
        ordem::ate(campos(a, ra), campos(b, rb)),
{
    assert(a.1 <= 366 && b.1 <= 366);
    if a.0 == b.0 && a.1 == b.1 {
        lema_horario_em_ordem(a, b, ra, rb);
    }
    if a.0 == b.0 {
        lema_campo_em_ordem(a.1, b.1, 3, horario(a, ra), horario(b, rb));
    }
    lema_campo_em_ordem(
        a.0,
        b.0,
        4,
        texto::inteiro_com_zeros(a.1, 3) + horario(a, ra),
        texto::inteiro_com_zeros(b.1, 3) + horario(b, rb),
    );
}

/// No mesmo dia, o horário mais cedo vem antes.
proof fn lema_horario_em_ordem(
    a: (int, int, int, int, int, int),
    b: (int, int, int, int, int, int),
    ra: Seq<char>,
    rb: Seq<char>,
)
    requires
        data_e_hora_validas(a),
        data_e_hora_validas(b),
        campos_crescem(a, b),
        a.0 == b.0,
        a.1 == b.1,
    ensures
        ordem::ate(horario(a, ra), horario(b, rb)),
{
    let a5 = texto::inteiro_com_zeros(a.5, 1) + ra;
    let b5 = texto::inteiro_com_zeros(b.5, 1) + rb;
    let a4 = texto::inteiro_com_zeros(a.4, 2) + a5;
    let b4 = texto::inteiro_com_zeros(b.4, 2) + b5;
    let a3 = texto::inteiro_com_zeros(a.3, 2) + a4;
    let b3 = texto::inteiro_com_zeros(b.3, 2) + b4;
    if a.2 == b.2 {
        if a.3 == b.3 {
            if a.4 == b.4 {
                lema_campo_em_ordem(a.5, b.5, 1, ra, rb);
            }
            lema_campo_em_ordem(a.4, b.4, 2, a5, b5);
        }
        lema_campo_em_ordem(a.3, b.3, 2, a4, b4);
    }
    lema_campo_em_ordem(a.2, b.2, 2, a3, b3);
}

/// O primeiro campo em que duas datas diferem cresce da mais antiga à mais nova.
spec fn campos_crescem(a: (int, int, int, int, int, int), b: (int, int, int, int, int, int)) -> bool {
    &&& a.0 <= b.0
    &&& a.0 == b.0 ==> a.1 <= b.1
    &&& a.0 == b.0 && a.1 == b.1 ==> a.2 <= b.2
    &&& a.0 == b.0 && a.1 == b.1 && a.2 == b.2 ==> a.3 <= b.3
    &&& a.0 == b.0 && a.1 == b.1 && a.2 == b.2 && a.3 == b.3 ==> a.4 <= b.4
    &&& a.0 == b.0 && a.1 == b.1 && a.2 == b.2 && a.3 == b.3 && a.4 == b.4 ==> a.5 < b.5
}

/// Do instante mais antigo ao mais novo, o primeiro campo diferente cresce.
proof fn lema_campos_crescem(
    a: (int, int, int, int, int, int),
    b: (int, int, int, int, int, int),
)
    requires
        data_e_hora_validas(a),
        data_e_hora_validas(b),
        instante_do_token(a) < instante_do_token(b),
    ensures
        campos_crescem(a, b),
{
    let da = momento::dia_unix(a.0, 1);
    let db = momento::dia_unix(b.0, 1);
    if b.0 < a.0 {
        momento::lema_anos_seguidos(b.0);
        momento::lema_inicio_cresce(b.0 + 1, a.0);
    }
    assert(b.0 < a.0 ==> db + b.1 <= da);
    assert(a.0 == b.0 ==> da == db);
    assert(momento::dia_unix(a.0, a.1) == da + a.1 - 1);
    assert(momento::dia_unix(b.0, b.1) == db + b.1 - 1);
    lema_comparacao(da, db, a, b);
}

/// A comparação dos campos, dado onde cada ano começa.
proof fn lema_comparacao(
    da: int,
    db: int,
    a: (int, int, int, int, int, int),
    b: (int, int, int, int, int, int),
)
    requires
        b.0 < a.0 ==> db + b.1 <= da,
        a.0 == b.0 ==> da == db,
        1 <= a.1,
        0 <= a.2 < 24 && 0 <= a.3 < 60 && 0 <= a.4 < 60 && 0 <= a.5 < 10,
        0 <= b.2 < 24 && 0 <= b.3 < 60 && 0 <= b.4 < 60 && 0 <= b.5 < 10,
        (da + a.1 - 1) * momento::NANOS_DIA + a.2 * momento::NANOS_HORA + a.3 * 60_000_000_000
            + a.4 * 1_000_000_000 + (a.5 * 100) * 1_000_000 < (db + b.1 - 1) * momento::NANOS_DIA
            + b.2 * momento::NANOS_HORA + b.3 * 60_000_000_000 + b.4 * 1_000_000_000 + (b.5 * 100)
            * 1_000_000,
    ensures
        campos_crescem(a, b),
{
}

/// Um campo menor, ou igual e seguido de algo que vem antes, vem antes.
proof fn lema_campo_em_ordem(a: int, b: int, largura: int, ra: Seq<char>, rb: Seq<char>)
    requires
        0 <= a <= b,
        largura == 1 && b < 10 || largura == 2 && b < 100 || largura == 3 && b < 1000 || largura
            == 4 && b < 10000,
        a == b ==> ordem::ate(ra, rb),
    ensures
        ordem::ate(
            texto::inteiro_com_zeros(a, largura) + ra,
            texto::inteiro_com_zeros(b, largura) + rb,
        ),
{
    texto::lema_largura(a, largura);
    texto::lema_largura(b, largura);
    let u = texto::inteiro_com_zeros(a, largura);
    let v = texto::inteiro_com_zeros(b, largura);
    if a < b {
        ordem::lema_algarismos_em_ordem(u, v, ra, rb);
    } else {
        ordem::lema_prefixo_comum(u, ra, rb);
    }
}

// ---------------------------------------------------------------------------
// Funções
// ---------------------------------------------------------------------------

/// Prefixo da hora UTC informada para um produto, no bucket de origem.
///
/// Ex.: `ABI-L2-CMIPF/2026/149/14/`
pub fn source_hour_prefix(product: &ProductConfig, at: Momento) -> (r: String)
    requires
        at.valido(),
        at.utc_valido(),
    ensures
        r@ == prefixo_da_hora(product.source_prefix@, momento::hora_de(at.nanos as int)),
{
    let at = momento::para_utc(&at);
    let mut s = texto::sem_fim(product.source_prefix.as_str(), '/');
    s.append("/");
    let ghost base = s@;
    assert(momento::dia_de(at.nanos as int) == momento::hora_de(at.nanos as int) / 24);
    let mut data = texto::escreve_com_zeros(momento::ano(&at) as i128, 4);
    data.append("/");
    data.append(texto::escreve_com_zeros(momento::ordinal(&at) as i128, 3).as_str());
    data.append("/");
    data.append(texto::escreve_com_zeros(momento::hora(&at) as i128, 2).as_str());
    s.append(data.as_str());
    s.append("/");
    s
}

/// Chave de destino (PMTiles) a partir da chave de origem.
///
/// Reaproveita os segmentos de data (`AAAA/DDD/HH`) e o nome base do `.nc`,
/// trocando a extensão por `.pmtiles` sob o prefixo normalizado do produto.
///
/// Ex.: origem `ABI-L2-CMIPF/2026/149/14/OR_..._C13_....nc`
///   → `goes19/abi-l2-cmipf-c13/2026/149/14/OR_..._C13_....pmtiles`
pub fn dest_pmtiles_key(product: &ProductConfig, dest_prefix: &str, source_key: &str) -> (r: String)
    ensures
        r@ == chave_destino(product.name@, dest_prefix@, source_key@),
{
    let p = texto::divide_sem_vazios(source_key, '/');
    let ghost seg = texto::textos(p@);
    let n = p.len();
    let radical = if n > 0 {
        texto::sem_sufixo(p[n - 1].as_str(), ".nc")
    } else {
        texto::sem_sufixo("output.nc", ".nc")
    };
    let data = if n >= 4 {
        texto::junte(&p, n - 4, n - 1, "/")
    } else {
        String::new()
    };
    assert(seg.len() == n);
    assert(radical@ == nome_base(source_key@));
    assert(data@ == data_da_chave(source_key@));
    let raiz = texto::sem_pontas(dest_prefix, '/');
    let mut chave = if raiz.as_str().is_empty() {
        let mut s = "goes19/".to_owned();
        s.append(product.name.as_str());
        s
    } else {
        let mut s = raiz;
        s.append("/goes19/");
        s.append(product.name.as_str());
        s
    };
    chave.append("/");
    if !data.as_str().is_empty() {
        chave.append(data.as_str());
        chave.append("/");
    }
    chave.append(radical.as_str());
    chave.append(".pmtiles");
    chave
}

/// Extrai os timestamps de início (`s`) e fim (`e`) do nome de arquivo NODD.
///
/// O nome traz tokens `s<AAAADDDHHMMSSm>` e `e<...>` (DDD = dia juliano, `m` =
/// décimo de segundo). Retorna `(início, fim)`; cada um é `None` se o token não
/// existir ou não parsear.
pub fn parse_frame_times(filename: &str) -> (r: (Option<Momento>, Option<Momento>))
    ensures
        r.0 == primeiro_tempo(texto::partes(filename@, '_'), 's'),
        r.1 == primeiro_tempo(texto::partes(filename@, '_'), 'e'),
{
    let p = texto::divide(filename, '_');
    let ghost t = texto::textos(p@);
    let mut inicio: Option<Momento> = None;
    let mut fim: Option<Momento> = None;
    let mut i: usize = 0;
    while i < p.len()
        invariant
            t == texto::textos(p@),
            i <= p@.len(),
            inicio == primeiro_tempo(t.take(i as int), 's'),
            fim == primeiro_tempo(t.take(i as int), 'e'),
        decreases p@.len() - i,
    {
        assert(t.take(i + 1).drop_last() =~= t.take(i as int));
        assert(t.take(i + 1).last() == p@[i as int]@);
        let letras = texto::letras(p[i].as_str());
        if letras.len() > 0 && (letras[0] == 's' || letras[0] == 'e') {
            let resto = texto::trecho(&letras, 1, letras.len());
            assert(resto@ =~= p@[i as int]@.skip(1));
            let tempo = parse_nodd_time(resto.as_str());
            if letras[0] == 's' {
                if inicio.is_none() {
                    inicio = tempo;
                }
            } else if fim.is_none() {
                fim = tempo;
            }
        }
        i = i + 1;
    }
    assert(t.take(i as int) =~= t);
    (inicio, fim)
}

/// O número escrito nos algarismos `de..ate` (no máximo quatro).
fn numero(v: &Vec<char>, de: usize, ate: usize) -> (r: u32)
    requires
        de <= ate <= v@.len(),
        ate - de <= 4,
        texto::so_digitos(v@.subrange(de as int, ate as int)),
    ensures
        r == texto::valor(v@.subrange(de as int, ate as int)),
        ate - de == 1 ==> r < 10,
        ate - de == 2 ==> r < 100,
        ate - de == 3 ==> r < 1000,
        r < 10000,
{
    let ghost t = v@.subrange(de as int, ate as int);
    let mut n: u32 = 0;
    let mut i: usize = de;
    assert(t.take(0) =~= Seq::<char>::empty());
    while i < ate
        invariant
            de <= i <= ate <= v@.len(),
            ate - de <= 4,
            t == v@.subrange(de as int, ate as int),
            texto::so_digitos(t),
            n == texto::valor(t.take(i - de)),
            i - de == 0 ==> n < 1,
            i - de == 1 ==> n < 10,
            i - de == 2 ==> n < 100,
            i - de == 3 ==> n < 1000,
            n < 10000,
        decreases ate - i,
    {
        assert(t[i - de] == v@[i as int]);
        assert(texto::e_digito(t[i - de]));
        assert(t.take(i - de + 1).drop_last() =~= t.take(i - de));
        n = n * 10 + (v[i] as u32 - 48);
        i = i + 1;
    }
    assert(t.take(i - de) =~= t);
    n
}

/// Parseia um token de tempo NODD: `AAAADDDHHMMSS` (13 dígitos) + opcional `m`
/// (décimo de segundo). Ex.: `20261491400208` → 2026-05-29T14:00:20.800Z.
pub fn parse_nodd_time(s: &str) -> (r: Option<Momento>)
    ensures
        r == tempo_nodd(s@),
{
    let v = texto::letras(s);
    if v.len() < 13 {
        return None;
    }
    let mut i: usize = 0;
    while i < 13
        invariant
            v@ == s@,
            v@.len() >= 13,
            i <= 13,
            forall|j: int| 0 <= j < i ==> texto::e_digito(#[trigger] s@[j]),
        decreases 13 - i,
    {
        let c = v[i];
        if !('0' <= c && c <= '9') {
            assert(!texto::e_digito(s@.take(13)[i as int]));
            return None;
        }
        i = i + 1;
    }
    let ano = numero(&v, 0, 4) as i32;
    let dia = numero(&v, 4, 7) as u16;
    let h = numero(&v, 7, 9) as u8;
    let m = numero(&v, 9, 11) as u8;
    let seg = numero(&v, 11, 13) as u8;
    let ms: u16 = if v.len() >= 14 && '0' <= v[13] && v[13] <= '9' {
        (v[13] as u32 - 48) as u16 * 100
    } else {
        0
    };
    proof {
        texto::lema_valor_prefixo(s@.subrange(0, 4), 0);
    }
    match (momento::data_ordinal(ano, dia), momento::hora_do_dia(h, m, seg, ms)) {
        (Some(data), Some(hora)) => Some(momento::data_hora_utc(data, hora)),
        _ => None,
    }
}

} // verus!
