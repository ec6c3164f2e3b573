//! Instantes e calendário.
//!
//! Um [`Momento`] guarda, em inteiros, o que um `time::OffsetDateTime` guarda:
//! o instante e o deslocamento em que ele é lido. A conta do calendário é do
//! crate `time`; os contratos daqui dizem o que ela devolve em termos do
//! calendário gregoriano proléptico.

use time::{Date, Duration, OffsetDateTime, PrimitiveDateTime, Time, UtcOffset};
use vstd::prelude::*;

verus! {

/// Nanossegundos por hora.
pub const NANOS_HORA: i128 = 3_600_000_000_000;

/// Nanossegundos por dia.
pub const NANOS_DIA: i128 = 86_400_000_000_000;

/// Primeiro nanossegundo representável: `-9999-01-01T00:00:00`.
pub const MIN_NANOS: i128 = -377_705_116_800_000_000_000;

/// Último nanossegundo representável: `9999-12-31T23:59:59.999999999`.
pub const MAX_NANOS: i128 = 253_402_300_799_999_999_999;

/// Maior deslocamento em relação ao UTC, em segundos (25:59:59).
pub const MAX_DESLOCAMENTO: i32 = 93_599;

/// Um instante e o deslocamento em que é lido.
#[derive(Clone, Copy, Debug, PartialEq, Eq, Structural)]
pub struct Momento {
    /// Nanossegundos desde 1970-01-01T00:00:00Z.
    pub nanos: i128,
    /// Deslocamento do relógio local em relação ao UTC, em segundos.
    pub deslocamento: i32,
}

// ---------------------------------------------------------------------------
// Modelo do calendário
// ---------------------------------------------------------------------------

/// O relógio cabe na faixa de anos `-9999..=9999`.
pub open spec fn na_faixa(nanos: int) -> bool {
    MIN_NANOS <= nanos <= MAX_NANOS
}

impl Momento {
    /// O que o relógio local marca, em nanossegundos desde 1970-01-01T00:00:00.
    pub open spec fn local(self) -> int {
        self.nanos + self.deslocamento * 1_000_000_000
    }

    /// O relógio local e o deslocamento são representáveis.
    pub open spec fn valido(self) -> bool {
        &&& -MAX_DESLOCAMENTO <= self.deslocamento <= MAX_DESLOCAMENTO
        &&& na_faixa(self.local())
    }

    /// O instante em UTC é representável.
    pub open spec fn utc_valido(self) -> bool {
        na_faixa(self.nanos as int)
    }
}

/// O momento em UTC de um instante.
pub open spec fn em_utc(nanos: int) -> Momento {
    Momento { nanos: nanos as i128, deslocamento: 0 }
}

/// Anos bissextos do calendário gregoriano.
pub open spec fn bissexto(ano: int) -> bool {
    ano % 4 == 0 && (ano % 100 != 0 || ano % 400 == 0)
}

/// Número de dias do ano.
pub open spec fn dias_no_ano(ano: int) -> int {
    if bissexto(ano) {
        366
    } else {
        365
    }
}

/// Dias entre 1º de janeiro do ano 1 e 1º de janeiro de `ano`.
pub open spec fn dias_antes(ano: int) -> int {
    365 * (ano - 1) + (ano - 1) / 4 - (ano - 1) / 100 + (ano - 1) / 400
}

/// O dia `ordinal` (1 = 1º de janeiro) de `ano`, contado desde 1970-01-01.
pub open spec fn dia_unix(ano: int, ordinal: int) -> int {
    dias_antes(ano) - 719_162 + ordinal - 1
}

/// `dia` (desde 1970-01-01) cai em `ano`.
pub open spec fn no_ano(dia: int, ano: int) -> bool {
    dia_unix(ano, 1) <= dia < dia_unix(ano + 1, 1)
}

/// O ano em que `dia` cai.
pub open spec fn ano_do_dia(dia: int) -> int {
    choose|ano: int| no_ano(dia, ano)
}

/// A posição de `dia` no seu ano, a partir de 1.
pub open spec fn ordinal_do_dia(dia: int) -> int {
    dia - dia_unix(ano_do_dia(dia), 1) + 1
}

/// O dia (desde 1970-01-01) que o relógio marca.
pub open spec fn dia_de(nanos: int) -> int {
    nanos / (NANOS_DIA as int)
}

/// As horas inteiras que o relógio marca desde 1970-01-01T00.
pub open spec fn hora_de(nanos: int) -> int {
    nanos / (NANOS_HORA as int)
}

/// O relógio em `ano`, `ordinal`, às `h:m:s` e `ms` milésimos.
pub open spec fn relogio(ano: int, ordinal: int, h: int, m: int, s: int, ms: int) -> int {
    dia_unix(ano, ordinal) * NANOS_DIA + h * NANOS_HORA + m * 60_000_000_000 + s * 1_000_000_000
        + ms * 1_000_000
}

// ---------------------------------------------------------------------------
// Lemas
// ---------------------------------------------------------------------------

/// O quociente por `k` só avança nos múltiplos de `k`.
proof fn lema_quociente_seguinte(y: int, k: int)
    requires
        k > 1,
    ensures
        (y + 1) / k - y / k == (if (y + 1) % k == 0 {
            1int
        } else {
            0int
        }),
{
    vstd::arithmetic::div_mod::lemma_fundamental_div_mod(y, k);
    if y % k == k - 1 {
        assert(y + 1 == (y / k + 1) * k) by (nonlinear_arith)
            requires
                y == k * (y / k) + y % k,
                y % k == k - 1,
        ;
        vstd::arithmetic::div_mod::lemma_fundamental_div_mod_converse(y + 1, k, y / k + 1, 0);
    } else {
        vstd::arithmetic::div_mod::lemma_mod_bound(y, k);
        assert(y + 1 == (y / k) * k + (y % k + 1)) by (nonlinear_arith)
            requires
                y == k * (y / k) + y % k,
        ;
        vstd::arithmetic::div_mod::lemma_fundamental_div_mod_converse(y + 1, k, y / k, y % k + 1);
    }
}

/// Os anos se sucedem sem lacuna: cada um começa onde o anterior acaba.
#[verifier::spinoff_prover]
pub proof fn lema_anos_seguidos(ano: int)
    ensures
        dia_unix(ano + 1, 1) == dia_unix(ano, 1) + dias_no_ano(ano),
{
    lema_quociente_seguinte(ano - 1, 4);
    lema_quociente_seguinte(ano - 1, 100);
    lema_quociente_seguinte(ano - 1, 400);
    lema_multiplo_do_fator(ano, 25, 4);
    lema_multiplo_do_fator(ano, 4, 100);
}

/// Um múltiplo de `n * k` é múltiplo de `k`.
proof fn lema_multiplo_do_fator(y: int, n: int, k: int)
    requires
        n > 0,
        k > 0,
    ensures
        y % (n * k) == 0 ==> y % k == 0,
{
    let c = n * k;
    assert(c > 0) by (nonlinear_arith)
        requires
            n > 0,
            k > 0,
            c == n * k,
    ;
    vstd::arithmetic::div_mod::lemma_fundamental_div_mod(y, c);
    if y % c == 0 {
        let q = y / c;
        assert(y == (q * n) * k + 0) by (nonlinear_arith)
            requires
                y == c * q + 0,
                c == n * k,
        ;
        vstd::arithmetic::div_mod::lemma_fundamental_div_mod_converse(y, k, q * n, 0);
    }
}

/// Cada ano começa ao menos 365 dias depois do anterior.
pub proof fn lema_inicio_cresce(a: int, b: int)
    requires
        a <= b,
    ensures
        dia_unix(a, 1) + 365 * (b - a) <= dia_unix(b, 1),
    decreases b - a,
{
    if a < b {
        lema_inicio_cresce(a, b - 1);
        lema_anos_seguidos(b - 1);
    }
}

/// Nenhum dia cai em dois anos.
pub proof fn lema_ano_unico(dia: int, a: int, b: int)
    requires
        no_ano(dia, a),
        no_ano(dia, b),
    ensures
        a == b,
{
    if a < b {
        lema_inicio_cresce(a + 1, b);
    } else if b < a {
        lema_inicio_cresce(b + 1, a);
    }
}

/// Todo dia cai em algum ano.
proof fn lema_ano_existe(dia: int) -> (ano: int)
    ensures
        no_ano(dia, ano),
    decreases (if dia < 0 { -dia } else { dia }),
{
    if dia == 0 {
        1970
    } else if dia > 0 {
        let a = lema_ano_existe(dia - 1);
        lema_anos_seguidos(a + 1);
        if dia < dia_unix(a + 1, 1) {
            a
        } else {
            a + 1
        }
    } else {
        let a = lema_ano_existe(dia + 1);
        lema_anos_seguidos(a - 1);
        if dia >= dia_unix(a, 1) {
            a
        } else {
            a - 1
        }
    }
}

/// O ano e o ordinal de um dia determinam o dia e são determinados por ele.
pub proof fn lema_dia_civil(dia: int)
    ensures
        no_ano(dia, ano_do_dia(dia)),
        1 <= ordinal_do_dia(dia) <= dias_no_ano(ano_do_dia(dia)),
        dia_unix(ano_do_dia(dia), ordinal_do_dia(dia)) == dia,
{
    let a = lema_ano_existe(dia);
    assert(no_ano(dia, a));
    lema_anos_seguidos(ano_do_dia(dia));
}

/// O dia `ordinal` de `ano` tem esse ano e esse ordinal.
pub proof fn lema_civil_dia(ano: int, ordinal: int)
    requires
        1 <= ordinal <= dias_no_ano(ano),
    ensures
        ano_do_dia(dia_unix(ano, ordinal)) == ano,
        ordinal_do_dia(dia_unix(ano, ordinal)) == ordinal,
{
    let d = dia_unix(ano, ordinal);
    lema_anos_seguidos(ano);
    assert(no_ano(d, ano));
    lema_dia_civil(d);
    lema_ano_unico(d, ano, ano_do_dia(d));
}

/// A faixa representável é exatamente a dos anos `-9999..=9999`.
pub proof fn lema_faixa(nanos: int)
    ensures
        na_faixa(nanos) <==> -9999 <= ano_do_dia(dia_de(nanos)) <= 9999,
{
    let d = dia_de(nanos);
    lema_dia_civil(d);
    let a = ano_do_dia(d);
    assert(dia_unix(-9999, 1) * NANOS_DIA == MIN_NANOS);
    assert(dia_unix(10000, 1) * NANOS_DIA == MAX_NANOS + 1);
    if a < -9999 {
        lema_inicio_cresce(a + 1, -9999);
    } else {
        lema_inicio_cresce(-9999, a);
    }
    if a > 9999 {
        lema_inicio_cresce(10000, a);
    } else {
        lema_inicio_cresce(a + 1, 10000);
    }
}

/// Um relógio com data e hora válidas, de ano entre -9999 e 9999, é representável.
pub proof fn lema_relogio(ano: int, ordinal: int, h: int, m: int, s: int, ms: int)
    requires
        -9999 <= ano <= 9999,
        1 <= ordinal <= dias_no_ano(ano),
        0 <= h < 24,
        0 <= m < 60,
        0 <= s < 60,
        0 <= ms < 1000,
    ensures
        na_faixa(relogio(ano, ordinal, h, m, s, ms)),
        dia_de(relogio(ano, ordinal, h, m, s, ms)) == dia_unix(ano, ordinal),
        hora_de(relogio(ano, ordinal, h, m, s, ms)) == dia_unix(ano, ordinal) * 24 + h,
{
    lema_civil_dia(ano, ordinal);
    lema_faixa(relogio(ano, ordinal, h, m, s, ms));
}

// ---------------------------------------------------------------------------
// O crate `time`
// ---------------------------------------------------------------------------

/// `OffsetDateTime::to_offset` para o UTC: o mesmo instante, lido em UTC. Entra
/// em pânico se o relógio UTC sai da faixa de anos, daí a exigência.
#[verifier::external_body]
pub(crate) fn para_utc(t: &Momento) -> (r: Momento)
    requires
        t.valido(),
        t.utc_valido(),
    ensures
        r.nanos == t.nanos,
        r.deslocamento == 0,
{
    let fuso = UtcOffset::from_whole_seconds(t.deslocamento).unwrap();
    let base = OffsetDateTime::UNIX_EPOCH.to_offset(fuso) + Duration::nanoseconds_i128(t.nanos);
    let utc = base.to_offset(UtcOffset::UTC);
    Momento { nanos: utc.unix_timestamp_nanos(), deslocamento: utc.offset().whole_seconds() }
}

/// `OffsetDateTime::year`: o ano que o relógio local marca.
#[verifier::external_body]
pub(crate) fn ano(t: &Momento) -> (r: i32)
    requires
        t.valido(),
    ensures
        r == ano_do_dia(dia_de(t.local())),
{
    let fuso = UtcOffset::from_whole_seconds(t.deslocamento).unwrap();
    let base = OffsetDateTime::UNIX_EPOCH.to_offset(fuso) + Duration::nanoseconds_i128(t.nanos);
    base.year()
}

/// `OffsetDateTime::ordinal`: o dia do ano que o relógio local marca (1 = 1º de
/// janeiro).
#[verifier::external_body]
pub(crate) fn ordinal(t: &Momento) -> (r: u16)
    requires
        t.valido(),
    ensures
        r == ordinal_do_dia(dia_de(t.local())),
{
    let fuso = UtcOffset::from_whole_seconds(t.deslocamento).unwrap();
    let base = OffsetDateTime::UNIX_EPOCH.to_offset(fuso) + Duration::nanoseconds_i128(t.nanos);
    base.ordinal()
}

/// `OffsetDateTime::hour`: a hora do dia (0 a 23) que o relógio local marca.
#[verifier::external_body]
pub(crate) fn hora(t: &Momento) -> (r: u8)
    requires
        t.valido(),
    ensures
        r == hora_de(t.local()) % 24,
{
    let fuso = UtcOffset::from_whole_seconds(t.deslocamento).unwrap();
    let base = OffsetDateTime::UNIX_EPOCH.to_offset(fuso) + Duration::nanoseconds_i128(t.nanos);
    base.hour()
}

/// `OffsetDateTime::unix_timestamp`: os segundos inteiros desde
/// 1970-01-01T00:00:00Z, arredondados para baixo.
#[verifier::external_body]
pub(crate) fn segundos_unix(t: &Momento) -> (r: i64)
    requires
        t.valido(),
    ensures
        r == t.nanos as int / 1_000_000_000,
{
    let fuso = UtcOffset::from_whole_seconds(t.deslocamento).unwrap();
    let base = OffsetDateTime::UNIX_EPOCH.to_offset(fuso) + Duration::nanoseconds_i128(t.nanos);
    base.unix_timestamp()
}

/// `OffsetDateTime::nanosecond`: os nanossegundos dentro do segundo.
#[verifier::external_body]
pub(crate) fn nanossegundo(t: &Momento) -> (r: u32)
    requires
        t.valido(),
    ensures
        r == t.nanos as int % 1_000_000_000,
{
    let fuso = UtcOffset::from_whole_seconds(t.deslocamento).unwrap();
    let base = OffsetDateTime::UNIX_EPOCH.to_offset(fuso) + Duration::nanoseconds_i128(t.nanos);
    base.nanosecond()
}

/// `OffsetDateTime::unix_timestamp_nanos`: os nanossegundos desde
/// 1970-01-01T00:00:00Z.
#[verifier::external_body]
pub(crate) fn nanos_unix(t: &Momento) -> (r: i128)
    requires
        t.valido(),
    ensures
        r == t.nanos,
{
    let fuso = UtcOffset::from_whole_seconds(t.deslocamento).unwrap();
    let base = OffsetDateTime::UNIX_EPOCH.to_offset(fuso) + Duration::nanoseconds_i128(t.nanos);
    base.unix_timestamp_nanos()
}

/// `OffsetDateTime::from_unix_timestamp_nanos`: o momento em UTC, ou `None` se o
/// instante está fora da faixa de anos.
#[verifier::external_body]
pub(crate) fn de_nanos_unix(nanos: i128) -> (r: Option<Momento>)
    ensures
        r == (if na_faixa(nanos as int) {
            Some(em_utc(nanos as int))
        } else {
            None
        }),
{
    match OffsetDateTime::from_unix_timestamp_nanos(nanos) {
        Ok(t) => Some(
            Momento { nanos: t.unix_timestamp_nanos(), deslocamento: t.offset().whole_seconds() },
        ),
        Err(_) => None,
    }
}

/// `OffsetDateTime + Duration` (nanossegundos): adianta o instante e conserva o
/// deslocamento. Entra em pânico se o relógio local sai da faixa.
#[verifier::external_body]
pub(crate) fn mais_nanos(t: &Momento, nanos: i128) -> (r: Momento)
    requires
        t.valido(),
        na_faixa(t.local() + nanos),
    ensures
        r.nanos == t.nanos + nanos,
        r.deslocamento == t.deslocamento,
{
    let fuso = UtcOffset::from_whole_seconds(t.deslocamento).unwrap();
    let base = OffsetDateTime::UNIX_EPOCH.to_offset(fuso) + Duration::nanoseconds_i128(t.nanos);
    let soma = base + Duration::nanoseconds_i128(nanos);
    Momento { nanos: soma.unix_timestamp_nanos(), deslocamento: soma.offset().whole_seconds() }
}

/// `OffsetDateTime - Duration::hours`: atrasa o instante de `horas` horas e
/// conserva o deslocamento. Entra em pânico se o relógio local sai da faixa.
#[verifier::external_body]
pub(crate) fn menos_horas(t: &Momento, horas: i64) -> (r: Momento)
    requires
        t.valido(),
        na_faixa(t.local() - horas * NANOS_HORA),
    ensures
        r.nanos == t.nanos - horas * NANOS_HORA,
        r.deslocamento == t.deslocamento,
{
    let fuso = UtcOffset::from_whole_seconds(t.deslocamento).unwrap();
    let base = OffsetDateTime::UNIX_EPOCH.to_offset(fuso) + Duration::nanoseconds_i128(t.nanos);
    let antes = base - Duration::hours(horas);
    Momento { nanos: antes.unix_timestamp_nanos(), deslocamento: antes.offset().whole_seconds() }
}

/// `Date::from_ordinal_date`: aceita a data se o ano está em `-9999..=9999` e
/// tem esse dia; devolve-a como ano e ordinal.
#[verifier::external_body]
pub(crate) fn data_ordinal(ano: i32, ordinal: u16) -> (r: Option<(i32, u16)>)
    ensures
        r == (if -9999 <= ano <= 9999 && 1 <= ordinal <= dias_no_ano(ano as int) {
            Some((ano, ordinal))
        } else {
            None
        }),
{
    match Date::from_ordinal_date(ano, ordinal) {
        Ok(d) => Some(d.to_ordinal_date()),
        Err(_) => None,
    }
}

/// `Time::from_hms_milli`: aceita a hora se cada campo está na sua faixa;
/// devolve-a nos mesmos campos.
#[verifier::external_body]
pub(crate) fn hora_do_dia(h: u8, m: u8, s: u8, ms: u16) -> (r: Option<(u8, u8, u8, u16)>)
    ensures
        r == (if h < 24 && m < 60 && s < 60 && ms < 1000 {
            Some((h, m, s, ms))
        } else {
            None
        }),
{
    match Time::from_hms_milli(h, m, s, ms) {
        Ok(t) => Some(t.as_hms_milli()),
        Err(_) => None,
    }
}

/// `PrimitiveDateTime::new(..).assume_utc()`: o momento em UTC de uma data e uma
/// hora já aceitas.
#[verifier::external_body]
pub(crate) fn data_hora_utc(data: (i32, u16), hora: (u8, u8, u8, u16)) -> (r: Momento)
    requires
        -9999 <= data.0 <= 9999,
        1 <= data.1 <= dias_no_ano(data.0 as int),
        hora.0 < 24,
        hora.1 < 60,
        hora.2 < 60,
        hora.3 < 1000,
    ensures
        r == em_utc(
            relogio(
                data.0 as int,
                data.1 as int,
                hora.0 as int,
                hora.1 as int,
                hora.2 as int,
                hora.3 as int,
            ),
        ),
{
    let d = Date::from_ordinal_date(data.0, data.1).unwrap();
    let h = Time::from_hms_milli(hora.0, hora.1, hora.2, hora.3).unwrap();
    let t = PrimitiveDateTime::new(d, h).assume_utc();
    Momento { nanos: t.unix_timestamp_nanos(), deslocamento: t.offset().whole_seconds() }
}

} // verus!
