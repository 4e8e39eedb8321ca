//! Operadores geneticos: selecao por roleta, cruzamento por religacao de
//! caminhos e o laco geracional que evolui a populacao.
use vstd::prelude::*;
use vstd::pervasive::VecAdditionalExecFns;

use crate::aleatorio::Gerador;
use crate::individuo::{
    custo_de, custo_rota, distancias_positivas, eh_permutacao, individuo_valido, matriz_valida,
    troca, visao_matriz, Individuo,
};

verus! {

/// Numero fixo de pontos da instancia que o programa monta.
pub const NUM_PONTOS: usize = 10;

/// Tamanho fixo da populacao.
pub const TAM_POPULACAO: usize = 100;

/// Numero de filhos produzidos por geracao.
pub const NUM_FILHOS: usize = 40;

/// Numero de geracoes do laco evolutivo.
pub const NUM_GERACOES: usize = 100;

/// A soma dos custos de todos os individuos da sequencia.
pub open spec fn soma_custos(pop: Seq<Individuo>) -> int
    decreases pop.len(),
{
    if pop.len() == 0 {
        0
    } else {
        soma_custos(pop.drop_last()) + pop.last().custo
    }
}

/// Acrescentar o individuo `k` ao prefixo soma exatamente o seu custo.
pub proof fn lema_soma_prefixo(pop: Seq<Individuo>, k: int)
    requires
        0 <= k < pop.len(),
    ensures
        soma_custos(pop.take(k + 1)) == soma_custos(pop.take(k)) + pop[k].custo,
{
    assert(pop.take(k + 1).drop_last() =~= pop.take(k));
    assert(pop.take(k + 1).last() == pop[k]);
}

/// A soma dos custos nunca e negativa.
pub proof fn lema_soma_nao_negativa(pop: Seq<Individuo>)
    ensures
        soma_custos(pop) >= 0,
    decreases pop.len(),
{
    if pop.len() > 0 {
        lema_soma_nao_negativa(pop.drop_last());
    }
}

/// A soma de um prefixo nunca passa da soma inteira.
pub proof fn lema_soma_prefixo_limitada(pop: Seq<Individuo>, k: int)
    requires
        0 <= k <= pop.len(),
    ensures
        soma_custos(pop.take(k)) <= soma_custos(pop),
    decreases pop.len() - k,
{
    if k == pop.len() {
        assert(pop.take(k) =~= pop);
    } else {
        lema_soma_prefixo(pop, k);
        lema_soma_prefixo_limitada(pop, k + 1);
    }
}

/// O resultado da roleta para um dado sorteio: o primeiro indice em que a
/// soma acumulada dos custos alcanca ou passa o sorteio; se nenhum indice a
/// alcanca, o indice 0.
pub open spec fn eh_escolha_roleta(pop: Seq<Individuo>, sorteio: int, i: int) -> bool {
    if exists|k: int|
        0 <= k < pop.len() && #[trigger] soma_custos(pop.take(k + 1)) >= sorteio {
        &&& 0 <= i < pop.len()
        &&& soma_custos(pop.take(i + 1)) >= sorteio
        &&& forall|k: int| 0 <= k < i ==> #[trigger] soma_custos(pop.take(k + 1)) < sorteio
    } else {
        i == 0
    }
}

/// Percorre a populacao acumulando os custos e devolve o primeiro indice em
/// que a soma alcanca ou passa `sorteio`; se nenhum alcanca, devolve 0.
pub fn indice_roleta(populacao: &Vec<Individuo>, sorteio: u64) -> (i: usize)
    requires
        populacao@.len() >= 1,
        soma_custos(populacao@) <= u64::MAX,
    ensures
        i < populacao@.len(),
        eh_escolha_roleta(populacao@, sorteio as int, i as int),
{
    let n = populacao.len();
    let mut soma: u64 = 0;
    for idx in 0..n
        invariant
            n == populacao@.len() >= 1,
            soma_custos(populacao@) <= u64::MAX,
            soma as int == soma_custos(populacao@.take(idx as int)),
            forall|k: int| 0 <= k < idx ==> #[trigger] soma_custos(populacao@.take(k + 1))
                < sorteio,
    {
        proof {
            lema_soma_prefixo(populacao@, idx as int);
            lema_soma_prefixo_limitada(populacao@, idx + 1);
            lema_soma_nao_negativa(populacao@.take(idx as int));
        }
        soma = soma + populacao[idx].custo;
        if soma >= sorteio {
            assert(soma_custos(populacao@.take(idx + 1)) >= sorteio);
            return idx;
        }
    }
    0
}

/// Selecao por roleta: sorteia um valor uniforme em `[0, custo_total)` e
/// devolve o indice que a caminhada acumulada escolhe para esse sorteio.
/// `custo_total` deve ser a soma exata dos custos e estritamente positiva;
/// a instancia degenerada com soma zero e rejeitada pelo contrato.
pub fn roleta(populacao: &Vec<Individuo>, custo_total: u64, ger: &mut Gerador) -> (i: usize)
    requires
        populacao@.len() >= 1,
        custo_total as int == soma_custos(populacao@),
        custo_total >= 1,
    ensures
        i < populacao@.len(),
        exists|sorteio: int|
            0 <= sorteio < custo_total && #[trigger] eh_escolha_roleta(
                populacao@,
                sorteio,
                i as int,
            ),
{
    let sorteio = ger.abaixo_de_u64(custo_total);
    let i = indice_roleta(populacao, sorteio);
    assert(eh_escolha_roleta(populacao@, sorteio as int, i as int));
    i
}

/// Uma troca candidata do cruzamento entre as rotas `ra` (de `a`) e `rb`
/// (de `b`): o gene de `ra` na posicao `i` difere do de `rb`, e a posicao
/// `j`, adiante de `i`, guarda em `ra` o valor que `rb` tem em `i`.
pub open spec fn candidato(ra: Seq<usize>, rb: Seq<usize>, i: int, j: int) -> bool {
    &&& 0 <= i < j < ra.len()
    &&& ra[i] != rb[i]
    &&& ra[j] == rb[i]
}

/// Cruzamento por religacao de caminhos: parte de uma copia de `a`, avalia,
/// para cada posicao em que `a` difere de `b`, a troca que aproximaria a
/// rota da ordem de `b`, desfazendo cada tentativa antes da seguinte, e
/// devolve a melhor rota vista. O resultado nunca custa mais que `a`
/// (quando nenhuma troca melhora, e uma copia de `a`), e custa no maximo o
/// custo de cada troca candidata.
pub fn cruzamento(a: &Individuo, b: &Individuo, dist: &Vec<Vec<u32>>) -> (filho: Individuo)
    requires
        matriz_valida(visao_matriz(dist), dist@.len() as int),
        1 <= dist@.len() <= 0x1_0000_0000,
        individuo_valido(*a, visao_matriz(dist)),
        eh_permutacao(b.rota@, dist@.len() as int),
    ensures
        individuo_valido(filho, visao_matriz(dist)),
        filho.custo <= a.custo,
        a.rota@ == b.rota@ ==> filho.rota@ == a.rota@ && filho.custo == a.custo,
        filho.rota@ == a.rota@ || exists|i: int, j: int|
            candidato(a.rota@, b.rota@, i, j) && filho.rota@ == #[trigger] troca(a.rota@, i, j),
        forall|i: int, j: int|
            candidato(a.rota@, b.rota@, i, j) ==> filho.custo <= custo_rota(
                #[trigger] troca(a.rota@, i, j),
                visao_matriz(dist),
            ),
{
    let n = dist.len();
    let mut melhor = a.clone();
    let mut melhor_custo = melhor.custo;
    let mut atual_rota = a.rota.clone();
    for i in 0..n
        invariant
            matriz_valida(visao_matriz(dist), dist@.len() as int),
            1 <= n == dist@.len() <= 0x1_0000_0000,
            individuo_valido(*a, visao_matriz(dist)),
            eh_permutacao(b.rota@, dist@.len() as int),
            atual_rota@ == a.rota@,
            melhor.custo == melhor_custo,
            melhor_custo <= a.custo,
            individuo_valido(melhor, visao_matriz(dist)),
            a.rota@ == b.rota@ ==> melhor.rota@ == a.rota@ && melhor_custo == a.custo,
            melhor.rota@ == a.rota@ || exists|i2: int, j2: int|
                candidato(a.rota@, b.rota@, i2, j2) && melhor.rota@ == #[trigger] troca(
                    a.rota@,
                    i2,
                    j2,
                ),
            forall|i2: int, j2: int|
                candidato(a.rota@, b.rota@, i2, j2) && i2 < i ==> melhor_custo <= custo_rota(
                    #[trigger] troca(a.rota@, i2, j2),
                    visao_matriz(dist),
                ),
    {
        if atual_rota[i] != b.rota[i] {
            let alvo = b.rota[i];
            for j in (i + 1)..n
                invariant
                    matriz_valida(visao_matriz(dist), dist@.len() as int),
                    1 <= n == dist@.len() <= 0x1_0000_0000,
                    individuo_valido(*a, visao_matriz(dist)),
                    eh_permutacao(b.rota@, dist@.len() as int),
                    i < n,
                    alvo == b.rota@[i as int],
                    a.rota@[i as int] != b.rota@[i as int],
                    atual_rota@ == a.rota@,
                    melhor.custo == melhor_custo,
                    melhor_custo <= a.custo,
                    individuo_valido(melhor, visao_matriz(dist)),
                    a.rota@ == b.rota@ ==> melhor.rota@ == a.rota@ && melhor_custo == a.custo,
                    melhor.rota@ == a.rota@ || exists|i2: int, j2: int|
                        candidato(a.rota@, b.rota@, i2, j2) && melhor.rota@ == #[trigger] troca(
                            a.rota@,
                            i2,
                            j2,
                        ),
                    forall|i2: int, j2: int|
                        candidato(a.rota@, b.rota@, i2, j2) && (i2 < i || (i2 == i && j2 < j))
                            ==> melhor_custo <= custo_rota(
                            #[trigger] troca(a.rota@, i2, j2),
                            visao_matriz(dist),
                        ),
            {
                if atual_rota[j] == alvo {
                    crate::individuo::trocar_genes(&mut atual_rota, i, j);
                    proof {
                        crate::individuo::lema_troca_permutacao(
                            a.rota@,
                            i as int,
                            j as int,
                            n as int,
                        );
                    }
                    let c = custo_de(&atual_rota, dist);
                    if c < melhor_custo {
                        melhor_custo = c;
                        melhor = Individuo { rota: atual_rota.clone(), custo: c };
                        assert(candidato(a.rota@, b.rota@, i as int, j as int) && melhor.rota@
                            == troca(a.rota@, i as int, j as int));
                    }
                    crate::individuo::trocar_genes(&mut atual_rota, i, j);
                    proof {
                        assert(troca(troca(a.rota@, i as int, j as int), i as int, j as int)
                            =~= a.rota@);
                    }
                }
            }
        }
    }
    melhor
}

/// A populacao esta em ordem nao decrescente de custo.
pub open spec fn ordenado_por_custo(pop: Seq<Individuo>) -> bool {
    forall|k: int, l: int|
        0 <= k < l < pop.len() ==> #[trigger] pop[k].custo <= #[trigger] pop[l].custo
}

/// Troca os individuos das posicoes `p` e `q` da populacao, preservando o
/// conjunto (com repeticao) de individuos.
fn trocar_individuos(populacao: &mut Vec<Individuo>, p: usize, q: usize)
    requires
        p < q < old(populacao)@.len(),
    ensures
        final(populacao)@ == old(populacao)@.update(
            p as int,
            old(populacao)@[q as int],
        ).update(q as int, old(populacao)@[p as int]),
        final(populacao)@.to_multiset() == old(populacao)@.to_multiset(),
{
    let ghost s0 = populacao@;
    let mut tmp = Individuo { rota: Vec::new(), custo: 0 };
    let ghost vazio = tmp;
    populacao.set_and_swap(p, &mut tmp);
    populacao.set_and_swap(q, &mut tmp);
    populacao.set_and_swap(p, &mut tmp);
    proof {
        broadcast use vstd::seq_lib::to_multiset_update;
        broadcast use vstd::seq_lib::group_to_multiset_ensures;

        let s1 = s0.update(p as int, vazio);
        let s2 = s1.update(q as int, s0[p as int]);
        let s3 = s2.update(p as int, s0[q as int]);
        assert(populacao@ == s3);
        assert(populacao@ =~= s0.update(p as int, s0[q as int]).update(
            q as int,
            s0[p as int],
        ));
        assert(s0.contains(s0[p as int]) && s0.contains(s0[q as int]));
        assert(s1.to_multiset() == s0.to_multiset().insert(vazio).remove(s0[p as int]));
        assert(s2.to_multiset() == s1.to_multiset().insert(s0[p as int]).remove(s1[q as int]));
        assert(s1[q as int] == s0[q as int]);
        assert(s3.to_multiset() == s2.to_multiset().insert(s0[q as int]).remove(s2[p as int]));
        assert(s2[p as int] == vazio);
        assert(s3.to_multiset() =~= s0.to_multiset());
    }
}

/// Ordenacao por insercao da populacao, em ordem nao decrescente de custo.
/// O resultado e um rearranjo dos mesmos individuos.
pub fn ordenar_por_custo(populacao: &mut Vec<Individuo>)
    ensures
        final(populacao)@.len() == old(populacao)@.len(),
        ordenado_por_custo(final(populacao)@),
        final(populacao)@.to_multiset() == old(populacao)@.to_multiset(),
{
    let n = populacao.len();
    if n <= 1 {
        return ;
    }
    for i in 1..n
        invariant
            populacao@.len() == n == old(populacao)@.len(),
            populacao@.to_multiset() == old(populacao)@.to_multiset(),
            forall|k: int, l: int|
                0 <= k < l < i ==> #[trigger] populacao@[k].custo
                    <= #[trigger] populacao@[l].custo,
    {
        let mut j = i;
        while j > 0 && populacao[j - 1].custo > populacao[j].custo
            invariant
                populacao@.len() == n == old(populacao)@.len(),
                populacao@.to_multiset() == old(populacao)@.to_multiset(),
                0 < i < n,
                0 <= j <= i,
                forall|k: int, l: int|
                    0 <= k < l <= i && l != j ==> #[trigger] populacao@[k].custo
                        <= #[trigger] populacao@[l].custo,
            decreases j,
        {
            let ghost antes = populacao@;
            trocar_individuos(populacao, j - 1, j);
            proof {
                assert forall|k: int, l: int|
                    0 <= k < l <= i && l != j - 1 implies #[trigger] populacao@[k].custo
                    <= #[trigger] populacao@[l].custo by {
                    assert(populacao@[k] == if k == j - 1 {
                        antes[j as int]
                    } else if k == j {
                        antes[j - 1]
                    } else {
                        antes[k]
                    });
                    assert(populacao@[l] == if l == j - 1 {
                        antes[j as int]
                    } else if l == j {
                        antes[j - 1]
                    } else {
                        antes[l]
                    });
                }
            }
            j = j - 1;
        }
        proof {
            assert forall|k: int, l: int|
                0 <= k < l <= i implies #[trigger] populacao@[k].custo
                <= #[trigger] populacao@[l].custo by {
                if l == j {
                    if k < j - 1 {
                        assert(populacao@[k].custo <= populacao@[j - 1].custo);
                    }
                }
            }
        }
    }
}

/// Os individuos da sequencia sao todos validos para a matriz dada.
pub open spec fn todos_validos(pop: Seq<Individuo>, dist: Seq<Seq<u32>>) -> bool {
    forall|k: int| 0 <= k < pop.len() ==> individuo_valido(#[trigger] pop[k], dist)
}

/// Com todos os custos em ao menos 1, a soma dos custos e ao menos o
/// tamanho da populacao.
pub proof fn lema_soma_custos_minimo(pop: Seq<Individuo>)
    requires
        forall|k: int| 0 <= k < pop.len() ==> (#[trigger] pop[k]).custo >= 1,
    ensures
        soma_custos(pop) >= pop.len(),
    decreases pop.len(),
{
    if pop.len() > 0 {
        lema_soma_custos_minimo(pop.drop_last());
    }
}

/// Com todos os custos limitados por `limite`, a soma dos custos e
/// limitada por `limite` vezes o tamanho da populacao.
pub proof fn lema_soma_custos_limite(pop: Seq<Individuo>, limite: int)
    requires
        limite >= 0,
        forall|k: int| 0 <= k < pop.len() ==> (#[trigger] pop[k]).custo <= limite,
    ensures
        soma_custos(pop) <= pop.len() * limite,
    decreases pop.len(),
{
    if pop.len() > 0 {
        lema_soma_custos_limite(pop.drop_last(), limite);
        assert((pop.len() - 1) * limite + limite == pop.len() * limite) by (nonlinear_arith);
    }
}

/// Uma geracao do laco evolutivo: soma os custos, produz `num_filhos`
/// filhos por selecao na roleta, cruzamento e mutacao, descarta os
/// `num_filhos` ultimos da populacao (os piores, pois ela chega ordenada),
/// junta os filhos e reordena por custo. O tamanho da populacao nao muda, e
/// o resultado e exatamente os sobreviventes mais `num_filhos` filhos
/// validos.
pub fn nova_geracao(
    populacao: &mut Vec<Individuo>,
    dist: &Vec<Vec<u32>>,
    num_filhos: usize,
    ger: &mut Gerador,
)
    requires
        matriz_valida(visao_matriz(dist), dist@.len() as int),
        2 <= dist@.len() <= 0x1_0000_0000,
        distancias_positivas(visao_matriz(dist)),
        1 <= num_filhos <= old(populacao)@.len(),
        todos_validos(old(populacao)@, visao_matriz(dist)),
        ordenado_por_custo(old(populacao)@),
        old(populacao)@.len() * dist@.len() * 0xffff_ffff <= u64::MAX,
    ensures
        final(populacao)@.len() == old(populacao)@.len(),
        ordenado_por_custo(final(populacao)@),
        todos_validos(final(populacao)@, visao_matriz(dist)),
        exists|novos: Seq<Individuo>|
            {
                &&& novos.len() == num_filhos
                &&& todos_validos(novos, visao_matriz(dist))
                &&& final(populacao)@.to_multiset() == old(populacao)@.take(
                    old(populacao)@.len() - num_filhos,
                ).to_multiset().add(#[trigger] novos.to_multiset())
            },
{
    let n = dist.len();
    let tam = populacao.len();
    proof {
        assert forall|k: int|
            0 <= k < populacao@.len() implies 1 <= (#[trigger] populacao@[k]).custo
            && populacao@[k].custo <= dist@.len() * 0xffff_ffff by {
            assert(individuo_valido(populacao@[k], visao_matriz(dist)));
            crate::individuo::lema_custo_positivo(
                populacao@[k].rota@,
                visao_matriz(dist),
                n as int,
            );
            crate::individuo::lema_limites_custo(populacao@[k].rota@, visao_matriz(dist));
        }
        lema_soma_custos_minimo(populacao@);
        lema_soma_custos_limite(populacao@, dist@.len() as int * 0xffff_ffff);
        assert(populacao@.len() * (dist@.len() * 0xffff_ffff) == populacao@.len() * dist@.len()
            * 0xffff_ffff) by (nonlinear_arith);
    }
    let mut total: u64 = 0;
    for idx in 0..tam
        invariant
            tam == populacao@.len(),
            soma_custos(populacao@) <= u64::MAX,
            total as int == soma_custos(populacao@.take(idx as int)),
    {
        proof {
            lema_soma_prefixo(populacao@, idx as int);
            lema_soma_prefixo_limitada(populacao@, idx + 1);
            lema_soma_nao_negativa(populacao@.take(idx as int));
        }
        total = total + populacao[idx].custo;
    }
    proof {
        assert(populacao@.take(tam as int) =~= populacao@);
    }
    let mut nova_populacao: Vec<Individuo> = Vec::new();
    for f in 0..num_filhos
        invariant
            matriz_valida(visao_matriz(dist), dist@.len() as int),
            2 <= dist@.len() <= 0x1_0000_0000,
            distancias_positivas(visao_matriz(dist)),
            tam == populacao@.len() >= 1,
            populacao@ == old(populacao)@,
            todos_validos(populacao@, visao_matriz(dist)),
            total as int == soma_custos(populacao@),
            total >= 1,
            nova_populacao@.len() == f,
            todos_validos(nova_populacao@, visao_matriz(dist)),
    {
        let a_idx = roleta(populacao, total, ger);
        let b_idx = roleta(populacao, total, ger);
        assert(individuo_valido(populacao@[a_idx as int], visao_matriz(dist)));
        assert(individuo_valido(populacao@[b_idx as int], visao_matriz(dist)));
        let mut filho = cruzamento(&populacao[a_idx], &populacao[b_idx], dist);
        crate::individuo::mutacao(&mut filho, ger);
        filho.calcular_custo(dist);
        nova_populacao.push(filho);
    }
    let ghost novos = nova_populacao@;
    let ghost antes_corte = populacao@;
    let sobreviventes = tam - num_filhos;
    populacao.truncate(sobreviventes);
    populacao.append(&mut nova_populacao);
    proof {
        assert(antes_corte.subrange(0, sobreviventes as int) =~= antes_corte.take(
            sobreviventes as int,
        ));
        assert forall|k: int|
            0 <= k < populacao@.len() implies individuo_valido(
            #[trigger] populacao@[k],
            visao_matriz(dist),
        ) by {
            if k < sobreviventes {
                assert(populacao@[k] == antes_corte[k]);
                assert(individuo_valido(antes_corte[k], visao_matriz(dist)));
            } else {
                assert(populacao@[k] == novos[k - sobreviventes]);
                assert(individuo_valido(novos[k - sobreviventes], visao_matriz(dist)));
            }
        }
    }
    let ghost antes_ordem = populacao@;
    ordenar_por_custo(populacao);
    proof {
        broadcast use vstd::seq_lib::group_to_multiset_ensures;

        assert forall|k: int|
            0 <= k < populacao@.len() implies individuo_valido(
            #[trigger] populacao@[k],
            visao_matriz(dist),
        ) by {
            let x = populacao@[k];
            assert(populacao@.contains(x));
            assert(antes_ordem.to_multiset().count(x) > 0);
            let i0 = choose|i0: int| 0 <= i0 < antes_ordem.len() && antes_ordem[i0] == x;
            assert(individuo_valido(antes_ordem[i0], visao_matriz(dist)));
        }
        vstd::seq_lib::lemma_multiset_commutative(antes_corte.take(sobreviventes as int), novos);
        assert(novos.len() == num_filhos && todos_validos(novos, visao_matriz(dist))
            && populacao@.to_multiset() == antes_corte.take(
            sobreviventes as int,
        ).to_multiset().add(novos.to_multiset()));
    }
}

/// O laco evolutivo completo: por `NUM_GERACOES` geracoes, produz
/// `NUM_FILHOS` filhos, descarta os `NUM_FILHOS` piores e reordena. A
/// populacao chega com o tamanho fixo `TAM_POPULACAO` e ja ordenada (o
/// chamador a ordena ao avalia-la), e sai assim: do mesmo tamanho, ordenada
/// e com todos os individuos validos.
pub fn novas_geracoes(populacao: &mut Vec<Individuo>, dist: &Vec<Vec<u32>>, ger: &mut Gerador)
    requires
        matriz_valida(visao_matriz(dist), dist@.len() as int),
        2 <= dist@.len() <= 0x1_0000_0000,
        distancias_positivas(visao_matriz(dist)),
        old(populacao)@.len() == TAM_POPULACAO,
        todos_validos(old(populacao)@, visao_matriz(dist)),
        ordenado_por_custo(old(populacao)@),
        TAM_POPULACAO * dist@.len() * 0xffff_ffff <= u64::MAX,
    ensures
        final(populacao)@.len() == TAM_POPULACAO,
        ordenado_por_custo(final(populacao)@),
        todos_validos(final(populacao)@, visao_matriz(dist)),
{
    for g in 0..NUM_GERACOES
        invariant
            matriz_valida(visao_matriz(dist), dist@.len() as int),
            2 <= dist@.len() <= 0x1_0000_0000,
            distancias_positivas(visao_matriz(dist)),
            populacao@.len() == TAM_POPULACAO,
            todos_validos(populacao@, visao_matriz(dist)),
            ordenado_por_custo(populacao@),
            TAM_POPULACAO * dist@.len() * 0xffff_ffff <= u64::MAX,
    {
        nova_geracao(populacao, dist, NUM_FILHOS, ger);
    }
}

} // verus!
