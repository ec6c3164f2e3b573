//! Operações de texto sobre que o resto do coletor se apoia: números em
//! decimal, divisão e junção por separador, recortes e busca.
//!
//! Os contratos falam da sequência de caracteres do texto (`s@`).

use vstd::prelude::*;

verus! {

broadcast use vstd::string::group_string_axioms;

/// Contrato de [`String::push`]: acrescenta o caractere ao fim do texto.
pub assume_specification[ String::push ](s: &mut String, c: char)
    ensures
        final(s)@ == old(s)@.push(c),
;

// ---------------------------------------------------------------------------
// Modelos
// ---------------------------------------------------------------------------

/// O algarismo de valor `d` (0 a 9).
pub open spec fn digito(d: int) -> char {
    (d + 48) as char
}

/// `c` é um algarismo ASCII.
pub open spec fn e_digito(c: char) -> bool {
    '0' <= c <= '9'
}

/// Todos os caracteres são algarismos ASCII.
pub open spec fn so_digitos(s: Seq<char>) -> bool {
    forall|i: int| 0 <= i < s.len() ==> e_digito(#[trigger] s[i])
}

/// O número escrito em base dez, sem zeros à esquerda.
pub open spec fn decimal(n: nat) -> Seq<char>
    decreases n,
{
    if n < 10 {
        seq![digito(n as int)]
    } else {
        decimal(n / 10).push(digito((n % 10) as int))
    }
}

/// O valor de uma sequência de algarismos.
pub open spec fn valor(s: Seq<char>) -> int
    decreases s.len(),
{
    if s.len() == 0 {
        0
    } else {
        valor(s.drop_last()) * 10 + (s.last() as int - 48)
    }
}

/// O inteiro em base dez, com `-` à frente quando negativo.
pub open spec fn inteiro(n: int) -> Seq<char> {
    if n < 0 {
        "-"@ + decimal((-n) as nat)
    } else {
        decimal(n as nat)
    }
}

/// `s` completado com zeros à esquerda até `largura` caracteres.
pub open spec fn com_zeros(s: Seq<char>, largura: int) -> Seq<char> {
    if s.len() >= largura {
        s
    } else {
        Seq::new((largura - s.len()) as nat, |i: int| '0') + s
    }
}

/// O inteiro completado com zeros até `largura`; o sinal conta na largura e
/// fica à frente dos zeros.
pub open spec fn inteiro_com_zeros(n: int, largura: int) -> Seq<char> {
    if n < 0 {
        "-"@ + com_zeros(decimal((-n) as nat), largura - 1)
    } else {
        com_zeros(decimal(n as nat), largura)
    }
}

/// O texto sem o sinal inicial, se houver um.
pub open spec fn sem_sinal(s: Seq<char>) -> Seq<char> {
    if s.len() > 0 && (s[0] == '-' || s[0] == '+') {
        s.skip(1)
    } else {
        s
    }
}

/// O inteiro que o texto escreve: um sinal opcional e um ou mais algarismos,
/// nada além disso.
pub open spec fn le_inteiro(s: Seq<char>) -> Option<int> {
    let corpo = sem_sinal(s);
    if corpo.len() == 0 || !so_digitos(corpo) {
        None
    } else if s[0] == '-' {
        Some(-valor(corpo))
    } else {
        Some(valor(corpo))
    }
}

/// As vistas de uma lista de textos.
pub open spec fn textos(v: Seq<String>) -> Seq<Seq<char>> {
    v.map_values(|x: String| x@)
}

/// Os trechos de `s` entre ocorrências de `sep`, inclusive os vazios.
pub open spec fn partes(s: Seq<char>, sep: char) -> Seq<Seq<char>>
    decreases s.len(),
{
    if s.len() == 0 {
        seq![Seq::<char>::empty()]
    } else {
        let p = partes(s.drop_last(), sep);
        if s.last() == sep {
            p.push(Seq::<char>::empty())
        } else {
            p.drop_last().push(p.last().push(s.last()))
        }
    }
}

/// Os textos não vazios da lista, na ordem.
pub open spec fn nao_vazios(v: Seq<Seq<char>>) -> Seq<Seq<char>>
    decreases v.len(),
{
    if v.len() == 0 {
        v
    } else if v.last().len() > 0 {
        nao_vazios(v.drop_last()).push(v.last())
    } else {
        nao_vazios(v.drop_last())
    }
}

/// Os textos da lista com `sep` entre um e o seguinte.
pub open spec fn junta(v: Seq<Seq<char>>, sep: Seq<char>) -> Seq<char>
    decreases v.len(),
{
    if v.len() == 0 {
        Seq::<char>::empty()
    } else if v.len() == 1 {
        v[0]
    } else {
        junta(v.drop_last(), sep) + sep + v.last()
    }
}

/// `s` sem as ocorrências finais de `c`.
pub open spec fn apara_fim(s: Seq<char>, c: char) -> Seq<char>
    decreases s.len(),
{
    if s.len() > 0 && s.last() == c {
        apara_fim(s.drop_last(), c)
    } else {
        s
    }
}

/// `s` sem as ocorrências iniciais de `c`.
pub open spec fn apara_inicio(s: Seq<char>, c: char) -> Seq<char>
    decreases s.len(),
{
    if s.len() > 0 && s[0] == c {
        apara_inicio(s.drop_first(), c)
    } else {
        s
    }
}

/// `s` termina com `sufixo`.
pub open spec fn termina_com(s: Seq<char>, sufixo: Seq<char>) -> bool {
    s.len() >= sufixo.len() && s.skip(s.len() - sufixo.len()) == sufixo
}

/// `sub` ocorre em `s` a partir da posição `i`.
pub open spec fn ocorre_em(s: Seq<char>, sub: Seq<char>, i: int) -> bool {
    0 <= i <= s.len() - sub.len() && s.subrange(i, i + sub.len()) == sub
}

/// `sub` ocorre em `s`.
pub open spec fn contem(s: Seq<char>, sub: Seq<char>) -> bool {
    exists|i: int| ocorre_em(s, sub, i)
}

/// O trecho de `s` depois da última ocorrência de `c` (`s` inteiro se não há).
pub open spec fn depois_do_ultimo(s: Seq<char>, c: char) -> Seq<char> {
    partes(s, c).last()
}

// ---------------------------------------------------------------------------
// Lemas
// ---------------------------------------------------------------------------

/// Escrever em decimal e ler de volta devolve o número.
pub proof fn lema_valor_decimal(n: nat)
    ensures
        valor(decimal(n)) == n,
        so_digitos(decimal(n)),
        decimal(n).len() > 0,
    decreases n,
{
    reveal_with_fuel(valor, 2);
    if n < 10 {
        assert(decimal(n).drop_last() =~= Seq::<char>::empty());
    } else {
        lema_valor_decimal(n / 10);
        assert(decimal(n).drop_last() =~= decimal(n / 10));
    }
}

/// Zeros à esquerda não mudam o valor.
pub proof fn lema_valor_com_zeros(s: Seq<char>, largura: int)
    requires
        so_digitos(s),
    ensures
        valor(com_zeros(s, largura)) == valor(s),
        so_digitos(com_zeros(s, largura)),
    decreases s.len(),
{
    let k = if s.len() >= largura { 0nat } else { (largura - s.len()) as nat };
    let z = Seq::new(k, |i: int| '0');
    assert(com_zeros(s, largura) =~= z + s);
    lema_valor_zeros(k);
    lema_valor_concat_zeros(z, s);
}

proof fn lema_valor_zeros(k: nat)
    ensures
        valor(Seq::new(k, |i: int| '0')) == 0,
    decreases k,
{
    let z = Seq::new(k, |i: int| '0');
    if k > 0 {
        assert(z.drop_last() =~= Seq::new((k - 1) as nat, |i: int| '0'));
        lema_valor_zeros((k - 1) as nat);
    }
}

proof fn lema_valor_concat_zeros(z: Seq<char>, s: Seq<char>)
    requires
        valor(z) == 0,
    ensures
        valor(z + s) == valor(s),
    decreases s.len(),
{
    if s.len() == 0 {
        assert(z + s =~= z);
    } else {
        assert((z + s).drop_last() =~= z + s.drop_last());
        lema_valor_concat_zeros(z, s.drop_last());
    }
}

/// O valor de um prefixo de algarismos não passa do valor do todo.
pub proof fn lema_valor_prefixo(s: Seq<char>, k: int)
    requires
        so_digitos(s),
        0 <= k <= s.len(),
    ensures
        0 <= valor(s.take(k)) <= valor(s),
    decreases s.len(),
{
    if s.len() == 0 {
        assert(s.take(k) =~= s);
    } else if k == s.len() {
        assert(s.take(k) =~= s);
        lema_valor_prefixo(s.drop_last(), k - 1);
        assert(s.drop_last().take(k - 1) =~= s.drop_last());
    } else {
        lema_valor_prefixo(s.drop_last(), k);
        assert(s.drop_last().take(k) =~= s.take(k));
    }
}

/// O que se escreve com [`inteiro`] lê-se de volta com [`le_inteiro`].
pub proof fn lema_le_inteiro(n: int)
    ensures
        le_inteiro(inteiro(n)) == Some(n),
{
    reveal_strlit("-");
    let m: nat = if n < 0 { (-n) as nat } else { n as nat };
    lema_valor_decimal(m);
    if n < 0 {
        assert(inteiro(n).skip(1) =~= decimal(m));
        assert(inteiro(n)[0] == '-');
    } else {
        assert(e_digito(inteiro(n)[0]));
    }
}

/// Dividir por um separador dá ao menos um trecho, e nenhum o contém.
pub proof fn lema_partes(s: Seq<char>, sep: char)
    ensures
        partes(s, sep).len() >= 1,
        forall|i: int|
            0 <= i < partes(s, sep).len() ==> !(#[trigger] partes(s, sep)[i]).contains(sep),
    decreases s.len(),
{
    if s.len() > 0 {
        lema_partes(s.drop_last(), sep);
        let p = partes(s.drop_last(), sep);
        let q = partes(s, sep);
        assert forall|i: int| 0 <= i < q.len() implies !(#[trigger] q[i]).contains(sep) by {
            if i < p.len() - 1 {
                assert(q[i] == p[i]);
            } else if s.last() == sep {
                if i == p.len() - 1 {
                    assert(q[i] == p[i]);
                }
            } else {
                assert(q[i] == p.last().push(s.last()));
                assert(!p[p.len() - 1].contains(sep));
                if q[i].contains(sep) {
                    let k = choose|k: int| 0 <= k < q[i].len() && q[i][k] == sep;
                    assert(k < p.last().len());
                    assert(p.last()[k] == sep);
                }
            }
        }
    }
}

/// Números pequenos ocupam exatamente a largura pedida, e só com algarismos.
pub proof fn lema_largura(n: int, largura: int)
    requires
        0 <= n,
        largura == 1 && n < 10 || largura == 2 && n < 100 || largura == 3 && n < 1000
            || largura == 4 && n < 10000,
    ensures
        inteiro_com_zeros(n, largura).len() == largura,
        so_digitos(inteiro_com_zeros(n, largura)),
        valor(inteiro_com_zeros(n, largura)) == n,
{
    reveal_with_fuel(decimal, 4);
    lema_valor_decimal(n as nat);
    lema_valor_com_zeros(decimal(n as nat), largura);
}

/// Inteiros diferentes escrevem-se diferente, mesmo com zeros à esquerda.
pub proof fn lema_com_zeros_injetivo(a: int, b: int, largura: int)
    requires
        inteiro_com_zeros(a, largura) == inteiro_com_zeros(b, largura),
    ensures
        a == b,
{
    reveal_strlit("-");
    let x = inteiro_com_zeros(a, largura);
    let y = inteiro_com_zeros(b, largura);
    let ma: nat = if a < 0 { (-a) as nat } else { a as nat };
    let mb: nat = if b < 0 { (-b) as nat } else { b as nat };
    let la = if a < 0 { largura - 1 } else { largura };
    let lb = if b < 0 { largura - 1 } else { largura };
    lema_valor_decimal(ma);
    lema_valor_decimal(mb);
    lema_valor_com_zeros(decimal(ma), la);
    lema_valor_com_zeros(decimal(mb), lb);
    let ca = com_zeros(decimal(ma), la);
    let cb = com_zeros(decimal(mb), lb);
    assert(ca.len() > 0 && e_digito(ca[0]));
    assert(cb.len() > 0 && e_digito(cb[0]));
    if a < 0 {
        assert(x[0] == '-');
        assert(ca =~= x.skip(1));
        assert(b < 0);
        assert(cb =~= y.skip(1));
    } else {
        assert(x[0] == ca[0]);
        if b < 0 {
            assert(y[0] == '-');
        }
    }
}

/// Um inteiro escrito não contém barra.
pub proof fn lema_inteiro_sem_barra(n: int, largura: int)
    ensures
        !inteiro_com_zeros(n, largura).contains('/'),
        inteiro_com_zeros(n, largura).len() > 0,
{
    reveal_strlit("-");
    let m: nat = if n < 0 { (-n) as nat } else { n as nat };
    let l = if n < 0 { largura - 1 } else { largura };
    lema_valor_decimal(m);
    lema_valor_com_zeros(decimal(m), l);
    let c = com_zeros(decimal(m), l);
    let x = inteiro_com_zeros(n, largura);
    assert forall|i: int| 0 <= i < x.len() implies x[i] != '/' by {
        if n < 0 {
            if i > 0 {
                assert(x[i] == c[i - 1]);
                assert(e_digito(c[i - 1]));
            }
        } else {
            assert(e_digito(c[i]));
        }
    }
}

/// Um texto sem o separador é um trecho só.
pub proof fn lema_partes_sem_separador(s: Seq<char>, sep: char)
    requires
        !s.contains(sep),
    ensures
        partes(s, sep) == seq![s],
    decreases s.len(),
{
    if s.len() > 0 {
        assert(s[s.len() - 1] != sep);
        assert forall|i: int| 0 <= i < s.drop_last().len() implies s.drop_last()[i] != sep by {
            assert(s[i] != sep);
        }
        lema_partes_sem_separador(s.drop_last(), sep);
        assert(s.drop_last().push(s.last()) =~= s);
        assert(partes(s, sep) =~= seq![s]);
    } else {
        assert(s =~= Seq::<char>::empty());
    }
}

/// Os trechos de `a`, um separador e `b` são os de `a` seguidos dos de `b`.
pub proof fn lema_partes_concat(a: Seq<char>, sep: char, b: Seq<char>)
    ensures
        partes(a.push(sep) + b, sep) == partes(a, sep) + partes(b, sep),
    decreases b.len(),
{
    let t = a.push(sep) + b;
    lema_partes(a, sep);
    lema_partes(b, sep);
    if b.len() == 0 {
        assert(t.drop_last() =~= a);
        assert(partes(t, sep) =~= partes(a, sep) + partes(b, sep));
    } else {
        assert(t.drop_last() =~= a.push(sep) + b.drop_last());
        lema_partes_concat(a, sep, b.drop_last());
        lema_partes(b.drop_last(), sep);
        let pa = partes(a, sep);
        let pb = partes(b.drop_last(), sep);
        assert((pa + pb).drop_last() =~= pa + pb.drop_last());
        assert((pa + pb).last() == pb.last());
        assert(partes(t, sep) =~= pa + partes(b, sep));
    }
}

/// Dividir e juntar com o mesmo separador devolve o texto.
pub proof fn lei_dividir_e_juntar(s: Seq<char>, sep: char)
    ensures
        junta(partes(s, sep), seq![sep]) == s,
    decreases s.len(),
{
    if s.len() > 0 {
        let d = s.drop_last();
        lei_dividir_e_juntar(d, sep);
        lema_partes(d, sep);
        let p = partes(d, sep);
        let q = partes(s, sep);
        if s.last() == sep {
            assert(q.drop_last() =~= p);
            assert(junta(q, seq![sep]) =~= d.push(sep));
        } else {
            assert(q.drop_last() =~= p.drop_last());
            assert(q.last() == p.last().push(s.last()));
            if p.len() == 1 {
                assert(p[0] == p.last());
                assert(q[0] == q.last());
                assert(junta(q, seq![sep]) =~= d.push(s.last()));
            } else {
                assert(junta(q, seq![sep]) =~= junta(p.drop_last(), seq![sep]) + seq![sep]
                    + p.last().push(s.last()));
                assert(junta(q, seq![sep]) =~= d.push(s.last()));
            }
        }
        assert(d.push(s.last()) =~= s);
    } else {
        assert(s =~= Seq::<char>::empty());
    }
}

/// O último trecho é o fim do texto, não tem o separador e, se não é o texto
/// todo, vem logo depois de um.
pub proof fn lei_ultimo_trecho(s: Seq<char>, c: char)
    ensures
        ({
            let r = depois_do_ultimo(s, c);
            &&& r.len() <= s.len()
            &&& r == s.skip(s.len() - r.len())
            &&& !r.contains(c)
            &&& r.len() < s.len() ==> s[s.len() - r.len() - 1] == c
        }),
    decreases s.len(),
{
    lema_partes(s, c);
    let r = depois_do_ultimo(s, c);
    assert(r == partes(s, c)[partes(s, c).len() - 1]);
    if s.len() == 0 {
        assert(s.skip(0) =~= r);
    } else {
        let d = s.drop_last();
        lei_ultimo_trecho(d, c);
        lema_partes(d, c);
        let q = depois_do_ultimo(d, c);
        if s.last() == c {
            assert(r =~= Seq::<char>::empty());
            assert(s.skip(s.len() as int) =~= r);
        } else {
            assert(r == q.push(s.last()));
            assert(s.skip(s.len() - r.len()) =~= q.push(s.last()));
        }
    }
}

/// Aparar o fim só tira `c`, tira todos, e não toca no resto.
pub proof fn lei_apara_fim(s: Seq<char>, c: char)
    ensures
        ({
            let r = apara_fim(s, c);
            &&& r.len() <= s.len()
            &&& r == s.take(r.len() as int)
            &&& forall|i: int| r.len() <= i < s.len() ==> #[trigger] s[i] == c
            &&& r.len() > 0 ==> r.last() != c
        }),
    decreases s.len(),
{
    if s.len() > 0 && s.last() == c {
        let d = s.drop_last();
        lei_apara_fim(d, c);
        let r = apara_fim(s, c);
        assert(r =~= s.take(r.len() as int));
        assert forall|i: int| r.len() <= i < s.len() implies #[trigger] s[i] == c by {
            if i < s.len() - 1 {
                assert(d[i] == c);
            }
        }
    } else {
        assert(s.take(s.len() as int) =~= s);
    }
}

/// Aparar o começo só tira `c`, tira todos, e não toca no resto.
pub proof fn lei_apara_inicio(s: Seq<char>, c: char)
    ensures
        ({
            let r = apara_inicio(s, c);
            &&& r.len() <= s.len()
            &&& r == s.skip(s.len() - r.len())
            &&& forall|i: int| 0 <= i < s.len() - r.len() ==> #[trigger] s[i] == c
            &&& r.len() > 0 ==> r[0] != c
        }),
    decreases s.len(),
{
    if s.len() > 0 && s[0] == c {
        let d = s.drop_first();
        lei_apara_inicio(d, c);
        let r = apara_inicio(s, c);
        assert(r =~= s.skip(s.len() - r.len()));
        assert forall|i: int| 0 <= i < s.len() - r.len() implies #[trigger] s[i] == c by {
            if i > 0 {
                assert(d[i - 1] == c);
            }
        }
    } else {
        assert(s.skip(0) =~= s);
    }
}

/// Os não vazios de duas listas seguidas são os da primeira e depois os da
/// segunda; uma lista de um só texto fica igual, ou vazia se o texto é vazio.
pub proof fn lei_nao_vazios(a: Seq<Seq<char>>, b: Seq<Seq<char>>, x: Seq<char>)
    ensures
        nao_vazios(a + b) == nao_vazios(a) + nao_vazios(b),
        x.len() > 0 ==> nao_vazios(seq![x]) == seq![x],
        x.len() == 0 ==> nao_vazios(seq![x]) == Seq::<Seq<char>>::empty(),
    decreases b.len(),
{
    assert(seq![x].drop_last() =~= Seq::<Seq<char>>::empty());
    assert(nao_vazios(Seq::<Seq<char>>::empty()) =~= Seq::<Seq<char>>::empty());
    if x.len() > 0 {
        assert(nao_vazios(seq![x]) =~= seq![x]);
    }
    if b.len() == 0 {
        assert(a + b =~= a);
        assert(nao_vazios(a) + nao_vazios(b) =~= nao_vazios(a));
    } else {
        assert((a + b).drop_last() =~= a + b.drop_last());
        lei_nao_vazios(a, b.drop_last(), x);
        assert(nao_vazios(a + b) =~= nao_vazios(a) + nao_vazios(b));
    }
}

/// Só se lê um inteiro de um texto de algarismos, com um sinal à frente ou sem;
/// e o sinal de menos troca o sinal do que se lê.
pub proof fn lei_so_inteiros(s: Seq<char>)
    ensures
        le_inteiro(s) is Some <==> {
            &&& s.len() > 0
            &&& e_digito(s[0]) || ((s[0] == '-' || s[0] == '+') && s.len() > 1)
            &&& forall|i: int| 1 <= i < s.len() ==> '0' <= #[trigger] s[i] <= '9'
        },
        so_digitos(s) && s.len() > 0 ==> le_inteiro(s) == Some(valor(s)) && le_inteiro(
            seq!['-'] + s,
        ) == Some(-valor(s)) && le_inteiro(seq!['+'] + s) == Some(valor(s)),
{
    let k = if s.len() > 0 && (s[0] == '-' || s[0] == '+') { 1int } else { 0int };
    let corpo = sem_sinal(s);
    assert forall|i: int| 0 <= i < corpo.len() implies corpo[i] == s[i + k] by {}
    if le_inteiro(s) is Some {
        assert(e_digito(corpo[0]));
        assert forall|i: int| 1 <= i < s.len() implies '0' <= #[trigger] s[i] <= '9' by {
            assert(e_digito(corpo[i - k]));
        }
    }
    assert((seq!['-'] + s).skip(1) =~= s);
    assert((seq!['+'] + s).skip(1) =~= s);
    if so_digitos(s) && s.len() > 0 {
        assert(e_digito(s[0]));
    }
}

/// Um algarismo a mais no fim multiplica o valor por dez e soma o algarismo.
pub proof fn lei_valor(s: Seq<char>, d: int)
    requires
        0 <= d <= 9,
    ensures
        valor(s.push(digito(d))) == 10 * valor(s) + d,
        valor(Seq::<char>::empty()) == 0,
        e_digito(digito(d)),
{
    assert(s.push(digito(d)).drop_last() =~= s);
}

/// Um número não se escreve com zeros à esquerda, e só o negativo leva sinal.
pub proof fn lei_inteiro_canonico(n: int)
    ensures
        inteiro(n).len() > 0,
        n > 0 ==> '1' <= inteiro(n)[0] <= '9',
        n == 0 ==> inteiro(n) == seq!['0'],
        n < 0 ==> inteiro(n) == seq!['-'] + inteiro(-n),
        n >= 0 ==> so_digitos(inteiro(n)),
{
    reveal_strlit("-");
    let m: nat = if n < 0 { (-n) as nat } else { n as nat };
    lema_valor_decimal(m);
    if m > 0 {
        lema_primeiro_algarismo(m);
    }
    if n < 0 {
        assert(inteiro(n) =~= seq!['-'] + inteiro(-n));
    }
}

proof fn lema_primeiro_algarismo(m: nat)
    requires
        m > 0,
    ensures
        decimal(m).len() > 0,
        '1' <= decimal(m)[0] <= '9',
    decreases m,
{
    if m >= 10 {
        lema_primeiro_algarismo(m / 10);
        assert(decimal(m)[0] == decimal(m / 10)[0]);
    }
}

/// Completar com zeros dá a largura pedida, ou a do texto se já é maior; o texto
/// fica no fim, e o que vem antes são zeros.
pub proof fn lei_com_zeros(s: Seq<char>, largura: int)
    ensures
        ({
            let r = com_zeros(s, largura);
            let k = r.len() - s.len();
            &&& r.len() == (if s.len() >= largura {
                s.len() as int
            } else {
                largura
            })
            &&& r.skip(k) == s
            &&& forall|i: int| 0 <= i < k ==> #[trigger] r[i] == '0'
        }),
{
    let r = com_zeros(s, largura);
    assert(r.skip(r.len() - s.len()) =~= s);
}

/// Um trecho não vazio no fim da lista fica no fim dos não vazios.
pub proof fn lema_nao_vazios_push(v: Seq<Seq<char>>, x: Seq<char>)
    requires
        x.len() > 0,
    ensures
        nao_vazios(v.push(x)) == nao_vazios(v).push(x),
{
    assert(v.push(x).drop_last() =~= v);
}

// ---------------------------------------------------------------------------
// Funções
// ---------------------------------------------------------------------------

/// Os caracteres do texto, na ordem.
pub fn letras(s: &str) -> (r: Vec<char>)
    ensures
        r@ == s@,
{
    let mut v: Vec<char> = Vec::new();
    for c in it: s.chars()
        invariant
            v@ == s@.take(it.index() as int),
            it.seq() == s@,
            it.index() <= s@.len(),
    {
        assert(s@.take(it.index() + 1) =~= s@.take(it.index() as int).push(c));
        v.push(c);
    }
    assert(s@.take(s@.len() as int) =~= s@);
    v
}

/// O texto formado pelos caracteres de `v` nas posições `de..ate`.
pub fn trecho(v: &Vec<char>, de: usize, ate: usize) -> (r: String)
    requires
        de <= ate <= v@.len(),
    ensures
        r@ == v@.subrange(de as int, ate as int),
{
    let mut r = String::new();
    let mut i: usize = de;
    while i < ate
        invariant
            de <= i <= ate <= v@.len(),
            r@ == v@.subrange(de as int, i as int),
        decreases ate - i,
    {
        assert(v@.subrange(de as int, i + 1) =~= v@.subrange(de as int, i as int).push(v@[i as int]));
        r.push(v[i]);
        i = i + 1;
    }
    r
}

/// Compara dois textos.
pub fn iguais(a: &str, b: &str) -> (r: bool)
    ensures
        r == (a@ == b@),
{
    let x = letras(a);
    let y = letras(b);
    if x.len() != y.len() {
        return false;
    }
    let mut i: usize = 0;
    while i < x.len()
        invariant
            x@ == a@,
            y@ == b@,
            x@.len() == y@.len(),
            i <= x@.len(),
            forall|j: int| 0 <= j < i ==> x@[j] == y@[j],
        decreases x@.len() - i,
    {
        if x[i] != y[i] {
            return false;
        }
        i = i + 1;
    }
    assert(x@ =~= y@);
    true
}

/// Escreve um número natural em decimal.
pub fn escreve_natural(n: u128) -> (r: String)
    ensures
        r@ == decimal(n as nat),
    decreases n,
{
    let d = (n % 10) as u8;
    let c = (48 + d) as char;
    if n < 10 {
        let mut s = String::new();
        s.push(c);
        assert(s@ =~= decimal(n as nat));
        s
    } else {
        let mut s = escreve_natural(n / 10);
        s.push(c);
        s
    }
}

/// Valor absoluto, sem estouro no menor inteiro.
fn modulo(n: i128) -> (r: u128)
    ensures
        r == (if n < 0 { -n } else { n as int }),
{
    if n < 0 {
        (-(n + 1)) as u128 + 1
    } else {
        n as u128
    }
}

/// Escreve um inteiro em decimal.
pub fn escreve_inteiro(n: i128) -> (r: String)
    ensures
        r@ == inteiro(n as int),
{
    let corpo = escreve_natural(modulo(n));
    if n < 0 {
        let mut s = "-".to_owned();
        s.append(corpo.as_str());
        s
    } else {
        corpo
    }
}

/// Completa um texto com zeros à esquerda.
fn completa_zeros(s: String, largura: usize) -> (r: String)
    ensures
        r@ == com_zeros(s@, largura as int),
{
    let n = s.as_str().unicode_len();
    if n >= largura {
        return s;
    }
    let mut r = String::new();
    let mut i: usize = 0;
    while i < largura - n
        invariant
            n < largura,
            i <= largura - n,
            r@ == Seq::new(i as nat, |k: int| '0'),
        decreases largura - n - i,
    {
        r.push('0');
        i = i + 1;
        assert(r@ =~= Seq::new(i as nat, |k: int| '0'));
    }
    r.append(s.as_str());
    r
}

/// Escreve um inteiro com zeros à esquerda até `largura` caracteres.
pub fn escreve_com_zeros(n: i128, largura: usize) -> (r: String)
    requires
        largura >= 1,
    ensures
        r@ == inteiro_com_zeros(n as int, largura as int),
{
    let corpo = escreve_natural(modulo(n));
    if n < 0 {
        let mut s = "-".to_owned();
        let c = completa_zeros(corpo, largura - 1);
        s.append(c.as_str());
        s
    } else {
        completa_zeros(corpo, largura)
    }
}

/// Lê os algarismos de `v` a partir de `de`. `None` se algum caractere não é
/// algarismo ou se o valor não cabe em `u128`.
fn le_digitos(v: &Vec<char>, de: usize) -> (r: Option<u128>)
    requires
        de <= v@.len(),
    ensures
        r matches Some(n) ==> so_digitos(v@.skip(de as int)) && n == valor(v@.skip(de as int)),
        r is None ==> !so_digitos(v@.skip(de as int)) || valor(v@.skip(de as int)) > u128::MAX,
{
    let ghost t = v@.skip(de as int);
    let mut n: u128 = 0;
    let mut i: usize = de;
    assert(t.take(0) =~= Seq::<char>::empty());
    while i < v.len()
        invariant
            de <= i <= v@.len(),
            t == v@.skip(de as int),
            so_digitos(t.take(i - de)),
            n == valor(t.take(i - de)),
        decreases v@.len() - i,
    {
        let c = v[i];
        assert(t[i - de] == c);
        if !('0' <= c && c <= '9') {
            return None;
        }
        let d: u128 = (c as u32 - 48) as u128;
        assert(t.take(i - de + 1).drop_last() =~= t.take(i - de));
        assert(t.take(i - de + 1).last() == c);
        if n > (u128::MAX - d) / 10 {
            proof {
                if so_digitos(t) {
                    lema_valor_prefixo(t, i - de + 1);
                }
            }
            return None;
        }
        n = n * 10 + d;
        i = i + 1;
        assert forall|j: int| 0 <= j < t.take(i - de).len() implies e_digito(
            #[trigger] t.take(i - de)[j],
        ) by {
            if j < i - de - 1 {
                assert(t.take(i - de - 1)[j] == t.take(i - de)[j]);
            }
        }
    }
    assert(t.take(i - de) =~= t);
    Some(n)
}

/// Lê um inteiro decimal: sinal opcional e um ou mais algarismos. `None` em
/// qualquer outro texto e quando o valor não cabe em `i128`.
pub fn le_i128(s: &str) -> (r: Option<i128>)
    ensures
        r == (match le_inteiro(s@) {
            Some(n) => if i128::MIN <= n <= i128::MAX {
                Some(n as i128)
            } else {
                None
            },
            None => None,
        }),
{
    let v = letras(s);
    if v.len() == 0 {
        return None;
    }
    let menos = v[0] == '-';
    let de: usize = if menos || v[0] == '+' { 1 } else { 0 };
    if v.len() == de {
        return None;
    }
    assert(v@.skip(de as int) =~= sem_sinal(s@));
    proof {
        if so_digitos(sem_sinal(s@)) {
            lema_valor_prefixo(sem_sinal(s@), 0);
        }
    }
    match le_digitos(&v, de) {
        None => None,
        Some(n) => {
            if menos {
                if n <= 0x7fff_ffff_ffff_ffff_ffff_ffff_ffff_ffff {
                    Some(-(n as i128))
                } else if n == 0x8000_0000_0000_0000_0000_0000_0000_0000 {
                    Some(i128::MIN)
                } else {
                    None
                }
            } else if n <= 0x7fff_ffff_ffff_ffff_ffff_ffff_ffff_ffff {
                Some(n as i128)
            } else {
                None
            }
        },
    }
}

/// Divide o texto por um separador, guardando os trechos vazios.
pub fn divide(s: &str, sep: char) -> (r: Vec<String>)
    ensures
        textos(r@) == partes(s@, sep),
{
    let v = letras(s);
    let mut r: Vec<String> = Vec::new();
    let mut atual = String::new();
    let mut i: usize = 0;
    assert(s@.take(0) =~= Seq::<char>::empty());
    assert(textos(r@).push(atual@) =~= partes(s@.take(0), sep));
    while i < v.len()
        invariant
            v@ == s@,
            i <= v@.len(),
            textos(r@).push(atual@) == partes(s@.take(i as int), sep),
        decreases v@.len() - i,
    {
        let ghost p = partes(s@.take(i as int), sep);
        let ghost ant = textos(r@);
        let ghost base = atual@;
        assert(s@.take(i + 1).drop_last() =~= s@.take(i as int));
        assert(p.drop_last() =~= ant);
        assert(p.last() == base);
        if v[i] == sep {
            r.push(atual);
            atual = String::new();
            assert(textos(r@) =~= p);
        } else {
            atual.push(v[i]);
        }
        i = i + 1;
        assert(textos(r@).push(atual@) =~= partes(s@.take(i as int), sep));
    }
    assert(s@.take(i as int) =~= s@);
    r.push(atual);
    assert(textos(r@) =~= partes(s@, sep));
    r
}

/// Divide o texto por um separador, descartando os trechos vazios.
pub fn divide_sem_vazios(s: &str, sep: char) -> (r: Vec<String>)
    ensures
        textos(r@) == nao_vazios(partes(s@, sep)),
{
    let p = divide(s, sep);
    let ghost t = textos(p@);
    let mut r: Vec<String> = Vec::new();
    let mut i: usize = 0;
    while i < p.len()
        invariant
            t == textos(p@),
            i <= p@.len(),
            textos(r@) == nao_vazios(t.take(i as int)),
        decreases p@.len() - i,
    {
        assert(t.take(i + 1).drop_last() =~= t.take(i as int));
        assert(t.take(i + 1).last() == p@[i as int]@);
        if !p[i].as_str().is_empty() {
            let ghost antes = textos(r@);
            r.push(p[i].clone());
            assert(textos(r@) =~= antes.push(p@[i as int]@));
        }
        i = i + 1;
    }
    assert(t.take(i as int) =~= t);
    r
}

/// Junta os textos de `v` nas posições `de..ate`.
pub fn junte(v: &Vec<String>, de: usize, ate: usize, sep: &str) -> (r: String)
    requires
        de <= ate <= v@.len(),
    ensures
        r@ == junta(textos(v@).subrange(de as int, ate as int), sep@),
{
    let ghost t = textos(v@);
    let mut r = String::new();
    let mut i: usize = de;
    while i < ate
        invariant
            de <= i <= ate <= v@.len(),
            t == textos(v@),
            r@ == junta(t.subrange(de as int, i as int), sep@),
        decreases ate - i,
    {
        let ghost depois = t.subrange(de as int, i + 1);
        assert(depois.drop_last() =~= t.subrange(de as int, i as int));
        assert(depois.last() == v@[i as int]@);
        if i > de {
            r.append(sep);
        }
        r.append(v[i].as_str());
        if i == de {
            assert(r@ =~= v@[i as int]@);
        }
        i = i + 1;
    }
    r
}

/// Remove do fim as ocorrências de `c`.
pub fn sem_fim(s: &str, c: char) -> (r: String)
    ensures
        r@ == apara_fim(s@, c),
{
    let v = letras(s);
    let mut n: usize = v.len();
    assert(v@.take(n as int) =~= s@);
    while n > 0 && v[n - 1] == c
        invariant
            v@ == s@,
            n <= v@.len(),
            apara_fim(v@.take(n as int), c) == apara_fim(s@, c),
        decreases n,
    {
        assert(v@.take(n as int).drop_last() =~= v@.take(n - 1));
        n = n - 1;
    }
    let r = trecho(&v, 0, n);
    assert(r@ =~= v@.take(n as int));
    r
}

/// Remove das duas pontas as ocorrências de `c`.
pub fn sem_pontas(s: &str, c: char) -> (r: String)
    ensures
        r@ == apara_fim(apara_inicio(s@, c), c),
{
    let v = letras(s);
    let mut i: usize = 0;
    assert(v@.skip(0) =~= s@);
    while i < v.len() && v[i] == c
        invariant
            v@ == s@,
            i <= v@.len(),
            apara_inicio(v@.skip(i as int), c) == apara_inicio(s@, c),
        decreases v@.len() - i,
    {
        assert(v@.skip(i as int).drop_first() =~= v@.skip(i + 1));
        i = i + 1;
    }
    let meio = trecho(&v, i, v.len());
    assert(meio@ =~= v@.skip(i as int));
    sem_fim(meio.as_str(), c)
}

/// O texto sem o sufixo, ou o próprio texto se não termina com ele.
pub fn sem_sufixo(s: &str, sufixo: &str) -> (r: String)
    ensures
        r@ == (if termina_com(s@, sufixo@) {
            s@.take(s@.len() - sufixo@.len())
        } else {
            s@
        }),
{
    let v = letras(s);
    let f = letras(sufixo);
    if v.len() < f.len() {
        return s.to_owned();
    }
    let total = v.len();
    let base = total - f.len();
    let mut i: usize = 0;
    while i < f.len()
        invariant
            v@ == s@,
            total == v@.len(),
            f@ == sufixo@,
            base == v@.len() - f@.len(),
            i <= f@.len(),
            forall|j: int| 0 <= j < i ==> v@[base + j] == f@[j],
        decreases f@.len() - i,
    {
        if v[base + i] != f[i] {
            assert(s@.skip(base as int)[i as int] != sufixo@[i as int]);
            return s.to_owned();
        }
        i = i + 1;
    }
    assert(s@.skip(base as int) =~= sufixo@);
    let r = trecho(&v, 0, base);
    assert(r@ =~= s@.take(base as int));
    r
}

/// `sub` ocorre em `s`?
pub fn tem(s: &str, sub: &str) -> (r: bool)
    ensures
        r == contem(s@, sub@),
        r <==> exists|i: int|
            0 <= i <= s@.len() - sub@.len() && #[trigger] s@.subrange(i, i + sub@.len()) == sub@,
{
    let v = letras(s);
    let w = letras(sub);
    let total = v.len();
    if w.len() > total {
        return false;
    }
    let mut i: usize = 0;
    while i <= total - w.len()
        invariant
            v@ == s@,
            total == v@.len(),
            w@ == sub@,
            w@.len() <= v@.len(),
            i <= v@.len() - w@.len() + 1,
            forall|k: int| 0 <= k < i ==> !ocorre_em(s@, sub@, k),
        decreases v@.len() - w@.len() + 1 - i,
    {
        let mut j: usize = 0;
        while j < w.len() && v[i + j] == w[j]
            invariant
                v@ == s@,
                total == v@.len(),
                w@ == sub@,
                i <= v@.len() - w@.len(),
                j <= w@.len(),
                forall|k: int| 0 <= k < j ==> v@[i + k] == w@[k],
            decreases w@.len() - j,
        {
            j = j + 1;
        }
        if j == w.len() {
            assert(s@.subrange(i as int, i + sub@.len()) =~= sub@);
            assert(ocorre_em(s@, sub@, i as int));
            assert(0 <= i <= s@.len() - sub@.len());
            return true;
        }
        assert(!ocorre_em(s@, sub@, i as int)) by {
            assert(s@.subrange(i as int, i + sub@.len())[j as int] == s@[i + j]);
        }
        i = i + 1;
    }
    assert forall|k: int| 0 <= k <= s@.len() - sub@.len() implies #[trigger] s@.subrange(
        k,
        k + sub@.len(),
    ) != sub@ by {
        assert(!ocorre_em(s@, sub@, k));
    }
    false
}

/// O trecho depois da última ocorrência de `c`.
pub fn ultimo_trecho(s: &str, c: char) -> (r: String)
    ensures
        r@ == depois_do_ultimo(s@, c),
        r@.len() <= s@.len(),
        r@ == s@.skip(s@.len() - r@.len()),
        !r@.contains(c),
        r@.len() < s@.len() ==> s@[s@.len() - r@.len() - 1] == c,
{
    let mut p = divide(s, c);
    proof {
        lema_partes(s@, c);
        lei_ultimo_trecho(s@, c);
    }
    assert(textos(p@).len() == p@.len());
    let n = p.len();
    let ghost antes = textos(p@);
    let r = p.swap_remove(n - 1);
    assert(r@ == antes[n - 1]);
    r
}

} // verus!
