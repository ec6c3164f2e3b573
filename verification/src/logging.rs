//! Logging estruturado: o que o ambiente pede.
//!
//! Texto legível por padrão; JSON quando `SYNC_LOG_FORMAT=json` (para
//! agregadores em produção). Nível controlado por `RUST_LOG`.

use crate::texto;
use vstd::prelude::*;

verus! {

broadcast use vstd::string::group_string_axioms;

/// O nível dos logs quando `RUST_LOG` não diz.
pub const FILTRO_PADRAO: &'static str = "coletor_imagem_radar=info,warn";

/// A minúscula ASCII de um caractere; os outros não mudam.
pub open spec fn minuscula(c: char) -> char {
    if 'A' <= c <= 'Z' {
        (c as int + 32) as char
    } else {
        c
    }
}

/// Os textos são iguais a menos de maiúsculas ASCII.
pub open spec fn iguais_sem_caixa(a: Seq<char>, b: Seq<char>) -> bool {
    a.len() == b.len() && forall|i: int|
        0 <= i < a.len() ==> minuscula(#[trigger] a[i]) == minuscula(b[i])
}

/// A caixa não conta, e só ela: trocar uma letra ASCII pela sua outra caixa dá um
/// texto igual, e textos iguais só diferem assim.
pub proof fn lei_sem_caixa(a: Seq<char>, b: Seq<char>)
    ensures
        iguais_sem_caixa(a, b) <==> a.len() == b.len() && forall|i: int|
            0 <= i < a.len() ==> {
                ||| #[trigger] a[i] == b[i]
                ||| 'a' <= a[i] <= 'z' && b[i] as int == a[i] as int - 32
                ||| 'A' <= a[i] <= 'Z' && b[i] as int == a[i] as int + 32
            },
{
}

/// O valor de `SYNC_LOG_FORMAT` (`None` se ausente) pede JSON?
pub fn formato_json(valor: Option<&str>) -> (r: bool)
    ensures
        r <==> (valor matches Some(v) && iguais_sem_caixa(v@, "json"@)),
        r <==> valor is Some && {
            let v = valor->0@;
            &&& v.len() == 4
            &&& v[0] == 'j' || v[0] == 'J'
            &&& v[1] == 's' || v[1] == 'S'
            &&& v[2] == 'o' || v[2] == 'O'
            &&& v[3] == 'n' || v[3] == 'N'
        },
{
    match valor {
        None => false,
        Some(s) => {
            let v = texto::letras(s);
            proof {
                reveal_strlit("json");
            }
            if v.len() != 4 {
                return false;
            }
            let r = (v[0] == 'j' || v[0] == 'J') && (v[1] == 's' || v[1] == 'S') && (v[2] == 'o'
                || v[2] == 'O') && (v[3] == 'n' || v[3] == 'N');
            proof {
                if r {
                    assert(iguais_sem_caixa(s@, "json"@));
                } else {
                    assert(minuscula(s@[0]) != minuscula("json"@[0]) || minuscula(s@[1])
                        != minuscula("json"@[1]) || minuscula(s@[2]) != minuscula("json"@[2])
                        || minuscula(s@[3]) != minuscula("json"@[3]));
                }
            }
            r
        },
    }
}

} // verus!
